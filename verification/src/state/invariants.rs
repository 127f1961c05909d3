//! What every accepted event keeps of a seat's state (`wf`): no more of a kind in hand than
//! seen and never more than four of a kind seen, at most fourteen tiles in hand, the melds and
//! lists within their limits, and the shanten number within reach of the hand size.
use crate::mjai::Event;
use crate::shanten::lemma_calc_with_ding_que_bound;
use crate::state::player_state::{PlayerView, is_fresh};
use crate::ding_que::spec_is_ding_que_tile;
use crate::state::update::{lemma_range_nonneg, lemma_range_update, lemma_range_zero};
use crate::state::rules::{
    add_ankan, add_meld, await_void_choice, begin_draw, begin_own_kakan, begin_own_kan,
    begin_own_pon, call_options, called_set, chankan_check, chankan_offer, cleared_for,
    count_draw, deal, dealt, discarded, finish_kan, kakan_meld, kan_declared,
    kans_and_void_unless_last, known, named, own_turn_shanten, pad_kawa, pon_to_kan, prologue,
    record_pon, rel, revert_kan, tehai_sum, ron_offer, shanten_after_leaving, spec_update,
    start_discard_turn, take_in, take_out, take_out_all, to_kawa, undo_chankan, unkan_meld,
    update_ok, void_shanten_discards, without, first_meld_of, index_of, wf, witness, witness_all, with_deltas,
    with_ding_que_forbidden, with_drawn_win, with_kan_candidates, with_kans_unless_last,
    with_shanten, with_shanten_discards, with_waits, zeros27,
};
use crate::tile::Tile;
use vstd::array::{spec_array_fill_for_copy_type, spec_array_update};
use vstd::prelude::*;

verus! {

broadcast use vstd::array::group_array_axioms;

/// Of each kind, the hand holds no more than the seat has seen, and the seat has seen at most
/// four.
pub open spec fn counts_ok(v: PlayerView) -> bool {
    forall|t: int| 0 <= t < 27 ==> v.tehai[t] <= #[trigger] v.tiles_seen[t] <= 4
}

/// `a` holds and has seen what `b` does.
pub open spec fn same_counts(a: PlayerView, b: PlayerView) -> bool {
    a.tehai == b.tehai && a.tiles_seen == b.tiles_seen
}

/// The pieces that work out shanten numbers, waits and allowed actions leave the counts alone.
proof fn lemma_derived_keep_counts()
    ensures
        forall|v: PlayerView| #![trigger with_shanten(v)] same_counts(with_shanten(v), v),
        forall|v: PlayerView| #![trigger with_shanten_discards(v)] same_counts(with_shanten_discards(v), v),
        forall|v: PlayerView| #![trigger with_waits(v)] same_counts(with_waits(v), v),
        forall|v: PlayerView| #![trigger with_ding_que_forbidden(v)] same_counts(with_ding_que_forbidden(v), v),
        forall|v: PlayerView, t: int, b: bool| #![trigger shanten_after_leaving(v, t, b)] same_counts(shanten_after_leaving(v, t, b), v),
        forall|v: PlayerView| #![trigger with_kan_candidates(v)] same_counts(with_kan_candidates(v), v),
        forall|v: PlayerView| #![trigger void_shanten_discards(v)] same_counts(void_shanten_discards(v), v),
        forall|v: PlayerView| #![trigger start_discard_turn(v)] same_counts(start_discard_turn(v), v),
        forall|v: PlayerView| #![trigger own_turn_shanten(v)] same_counts(own_turn_shanten(v), v),
        forall|v: PlayerView| #![trigger await_void_choice(v)] same_counts(await_void_choice(v), v),
        forall|v: PlayerView| #![trigger dealt(v)] same_counts(dealt(v), v),
{
    reveal(with_shanten);
    reveal(with_shanten_discards);
    reveal(with_waits);
    reveal(with_ding_que_forbidden);
    reveal(shanten_after_leaving);
    reveal(with_kan_candidates);
    reveal(void_shanten_discards);
    reveal(start_discard_turn);
    reveal(own_turn_shanten);
    reveal(await_void_choice);
    reveal(dealt);
}

/// The pieces that decide wins and calls leave the counts alone.
proof fn lemma_offers_keep_counts()
    ensures
        forall|v: PlayerView, a: bool, b: bool| #![trigger with_drawn_win(v, a, b)] same_counts(with_drawn_win(v, a, b), v),
        forall|v: PlayerView| #![trigger with_kans_unless_last(v)] same_counts(with_kans_unless_last(v), v),
        forall|v: PlayerView| #![trigger kans_and_void_unless_last(v)] same_counts(kans_and_void_unless_last(v), v),
        forall|v: PlayerView, t: Tile| #![trigger ron_offer(v, t)] same_counts(ron_offer(v, t), v),
        forall|v: PlayerView, t: Tile| #![trigger call_options(v, t)] same_counts(call_options(v, t), v),
        forall|v: PlayerView, a: u8, t: Tile| #![trigger chankan_check(v, a, t)] same_counts(chankan_check(v, a, t), v),
        forall|v: PlayerView, a: u8, t: Tile| #![trigger chankan_offer(v, a, t)] same_counts(chankan_offer(v, a, t), v),
        forall|v: PlayerView, e: Event| #![trigger prologue(v, e)] same_counts(prologue(v, e), v),
        forall|v: PlayerView, a: u8, s: crate::mjai::Suit| #![trigger named(v, a, s)] same_counts(named(v, a, s), v),
{
    lemma_derived_keep_counts();
    reveal(with_drawn_win);
    reveal(with_kans_unless_last);
    reveal(kans_and_void_unless_last);
    reveal(ron_offer);
    reveal(call_options);
    reveal(chankan_check);
    reveal(chankan_offer);
    reveal(prologue);
    reveal(named);
}

/// The pieces that record discards and melds leave the counts alone.
proof fn lemma_records_keep_counts()
    ensures
        forall|v: PlayerView, t: Tile| #![trigger begin_draw(v, t)] same_counts(begin_draw(v, t), v),
        forall|v: PlayerView, r: int, t: Tile, b: bool| #![trigger to_kawa(v, r, t, b)] same_counts(to_kawa(v, r, t, b), v),
        forall|v: PlayerView| #![trigger discarded(v)] same_counts(discarded(v), v),
        forall|v: PlayerView, a: u8| #![trigger pad_kawa(v, a)] same_counts(pad_kawa(v, a), v),
        forall|v: PlayerView, r: int, m: Seq<Tile>| #![trigger add_meld(v, r, m)] same_counts(add_meld(v, r, m), v),
        forall|v: PlayerView| #![trigger begin_own_pon(v)] same_counts(begin_own_pon(v), v),
        forall|v: PlayerView, t: Tile| #![trigger record_pon(v, t)] same_counts(record_pon(v, t), v),
        forall|v: PlayerView| #![trigger begin_own_kan(v)] same_counts(begin_own_kan(v), v),
{
    reveal(begin_draw);
    reveal(to_kawa);
    reveal(discarded);
    reveal(pad_kawa);
    reveal(add_meld);
    reveal(begin_own_pon);
    reveal(record_pon);
    reveal(begin_own_kan);
}

/// The pieces that record kans, and undo robbed ones, leave the counts alone.
proof fn lemma_kans_keep_counts()
    ensures
        forall|v: PlayerView, t: u8, b: bool| #![trigger finish_kan(v, t, b)] same_counts(finish_kan(v, t, b), v),
        forall|v: PlayerView, r: int, t: Tile| #![trigger kakan_meld(v, r, t)] same_counts(kakan_meld(v, r, t), v),
        forall|v: PlayerView, t: Tile| #![trigger pon_to_kan(v, t)] same_counts(pon_to_kan(v, t), v),
        forall|v: PlayerView, t: Tile| #![trigger begin_own_kakan(v, t)] same_counts(begin_own_kakan(v, t), v),
        forall|v: PlayerView, r: int, t: Tile| #![trigger add_ankan(v, r, t)] same_counts(add_ankan(v, r, t), v),
        forall|v: PlayerView, r: int, t: int| #![trigger unkan_meld(v, r, t)] same_counts(unkan_meld(v, r, t), v),
{
    lemma_derived_keep_counts();
    reveal(finish_kan);
    reveal(kakan_meld);
    reveal(pon_to_kan);
    reveal(begin_own_kakan);
    reveal(add_ankan);
    reveal(unkan_meld);
}

/// Undoing a robbed kan leaves the counts alone.
proof fn lemma_undo_keeps_counts()
    ensures
        forall|v: PlayerView, t: u8| #![trigger revert_kan(v, t)] same_counts(revert_kan(v, t), v),
        forall|v: PlayerView, a: u8| #![trigger undo_chankan(v, a)] same_counts(undo_chankan(v, a), v),
{
    lemma_derived_keep_counts();
    lemma_kans_keep_counts();
    reveal(revert_kan);
    reveal(undo_chankan);
}

/// Seeing a tile keeps the counts in bounds: a fifth copy is refused.
proof fn lemma_witness_counts(v: PlayerView, t: Tile)
    requires
        counts_ok(v),
    ensures
        counts_ok(witness(v, t).0),
        witness(v, t).0.tehai == v.tehai,
{
}

proof fn lemma_witness_all_counts(v: PlayerView, tiles: Seq<Tile>)
    requires
        counts_ok(v),
    ensures
        counts_ok(witness_all(v, tiles).0),
    decreases tiles.len(),
{
    if tiles.len() > 0 {
        lemma_witness_all_counts(v, tiles.drop_last());
        let (v1, r1) = witness_all(v, tiles.drop_last());
        if r1 is Ok {
            lemma_witness_counts(v1, tiles.last());
        }
    }
}

/// Taking a real tile out of the hand keeps the counts in bounds.
proof fn lemma_take_out_counts(v: PlayerView, t: Tile, discard: bool)
    requires
        counts_ok(v),
        t@ < 27,
    ensures
        counts_ok(take_out(v, t, discard).0),
{
}

proof fn lemma_take_out_all_counts(v: PlayerView, tiles: Seq<Tile>)
    requires
        counts_ok(v),
        known(tiles),
    ensures
        counts_ok(take_out_all(v, tiles).0),
    decreases tiles.len(),
{
    if tiles.len() > 0 {
        assert(known(tiles.drop_last()));
        lemma_take_out_all_counts(v, tiles.drop_last());
        let (v1, r1) = take_out_all(v, tiles.drop_last());
        if r1 is Ok {
            assert(tiles.last() == tiles[tiles.len() - 1]);
            lemma_take_out_counts(v1, tiles.last(), false);
        }
    }
}

/// A drawn tile that was seen without error goes into the hand within bounds.
proof fn lemma_draw_counts(v: PlayerView, t: Tile)
    requires
        counts_ok(v),
        witness(v, t).1 is Ok,
    ensures
        counts_ok(take_in(witness(v, t).0, t)),
{
    reveal(take_in);
}

/// A deal that ends without error holds what it has seen.
proof fn lemma_deal_counts(v: PlayerView, tiles: Seq<Tile>)
    requires
        counts_ok(v),
        deal(v, tiles).1 is Ok,
    ensures
        counts_ok(deal(v, tiles).0),
    decreases tiles.len(),
{
    if tiles.len() > 0 {
        lemma_deal_counts(v, tiles.drop_last());
    }
}

/// A cleared state holds and has seen nothing.
proof fn lemma_cleared_counts(v: PlayerView, kyoku: u8, oya: u8, scores: [i32; 4])
    ensures
        counts_ok(cleared_for(v, kyoku, oya, scores)),
        forall|t: int| 0 <= t < 27 ==> #[trigger] cleared_for(v, kyoku, oya, scores).tehai@[t] == 0,
{
    reveal(cleared_for);
    let a = spec_array_fill_for_copy_type::<u8, 27>(0u8);
    assert(a@ =~= Seq::new(27, |i: int| 0u8));
    let z = zeros27();
    assert(z@ == Seq::new(27, |i: int| 0u8));
    assert forall|t: int| 0 <= t < 27 implies z[t] == 0 by {
        assert(z@[t] == 0);
    }
}

/// Every accepted event keeps the counts in bounds: a seat never holds more of a kind than it
/// has seen, nor sees more than four. (A deal refused for a fifth copy is the one event whose
/// partial state is not covered.)
pub proof fn lemma_update_keeps_counts(v: PlayerView, ev: Event)
    requires
        wf(v),
        update_ok(v, ev),
        !(ev is StartKyoku && spec_update(v, ev).1 is Err),
    ensures
        counts_ok(spec_update(v, ev).0),
{
    lemma_derived_keep_counts();
    lemma_offers_keep_counts();
    lemma_records_keep_counts();
    lemma_kans_keep_counts();
    lemma_undo_keeps_counts();
    let p = prologue(v, ev);
    assert(same_counts(p, v));
    assert(counts_ok(p));
    match ev {
        Event::StartKyoku { kyoku, oya, scores, tehais } => {
            let c = cleared_for(p, kyoku, oya, scores);
            lemma_cleared_counts(p, kyoku, oya, scores);
            let tiles = tehais[p.player_id as int]@;
            if deal(c, tiles).1 is Ok {
                lemma_deal_counts(c, tiles);
            }
        },
        Event::DingQue { actor, suit } => {},
        Event::Tsumo { actor, pai } => {
            let v0 = count_draw(p);
            if actor == v0.player_id && !v0.has_agari {
                let b = begin_draw(v0, pai);
                lemma_witness_counts(b, pai);
                if witness(b, pai).1 is Ok {
                    lemma_draw_counts(b, pai);
                }
            }
        },
        Event::Dahai { actor, pai, tsumogiri } => {
            if rel(p, actor) == 0 {
                lemma_take_out_counts(p, pai, true);
            } else {
                lemma_witness_counts(p, pai);
            }
        },
        Event::Pon { actor, target, pai, consumed } => {
            let v1 = add_meld(p, rel(p, actor), called_set(consumed, pai));
            if rel(p, actor) != 0 {
                lemma_witness_all_counts(v1, consumed@);
            } else {
                lemma_take_out_all_counts(begin_own_pon(pad_kawa(v1, target)), consumed@);
            }
        },
        Event::Daiminkan { actor, target, pai, consumed, deltas } => {
            let v1 = add_meld(with_deltas(p, deltas), rel(p, actor), called_set(consumed, pai));
            if rel(p, actor) != 0 {
                lemma_witness_all_counts(kan_declared(v1, pai), consumed@);
            } else {
                lemma_take_out_all_counts(
                    begin_own_kan(kan_declared(pad_kawa(v1, target), pai)),
                    consumed@,
                );
            }
        },
        Event::Kakan { actor, pai, deltas, .. } => {
            let v1 = kan_declared(kakan_meld(with_deltas(p, deltas), rel(p, actor), pai), pai);
            if rel(p, actor) != 0 {
                lemma_witness_counts(v1, pai);
            } else {
                lemma_take_out_counts(begin_own_kakan(v1, pai), pai, false);
            }
        },
        Event::Ankan { actor, consumed, deltas } => {
            let t = consumed[0];
            let v1 = kan_declared(add_ankan(with_deltas(p, deltas), rel(p, actor), t), t);
            if rel(p, actor) != 0 {
                lemma_witness_all_counts(v1, consumed@);
            } else {
                lemma_take_out_all_counts(begin_own_kan(v1), consumed@);
            }
        },
        _ => {},
    }
}

// ---------------------------------------------------------------------------------------------
// The rest of `wf`.

/// The clauses of `wf` on the shape of the state: a seat number, at most one kan record, at most
/// four melds of each kind, the per-kind and per-seat lists of their fixed lengths, no empty
/// meld.
pub open spec fn shape_ok(v: PlayerView) -> bool {
    &&& v.player_id < 4
    &&& v.intermediate_kan.len() <= 1
    &&& v.pons.len() <= 4
    &&& v.minkans.len() <= 4
    &&& v.ankans.len() <= 4
    &&& v.waits.len() == 27
    &&& v.keep_shanten_discards.len() == 27
    &&& v.next_shanten_discards.len() == 27
    &&& v.forbidden_tiles.len() == 27
    &&& v.kawa.len() == 4
    &&& v.kawa_overview.len() == 4
    &&& v.fuuro_overview.len() == 4
    &&& v.ankan_overview.len() == 4
    &&& forall|r: int, j: int|
        0 <= r < 4 && 0 <= j < v.fuuro_overview[r].len() ==> #[trigger] v.fuuro_overview[r][j].len()
            >= 1
}

/// `shape_ok`, at most fourteen tiles in hand, and a shanten number no further below the hand
/// size than `wf` allows (`slack` 15), or one closer (`slack` 14).
pub open spec fn good(v: PlayerView, slack: int) -> bool {
    &&& shape_ok(v)
    &&& tehai_sum(v) <= 14
    &&& v.shanten >= tehai_sum(v) - slack
}

/// A freshly computed shanten number is at least 0.
proof fn lemma_with_shanten_good(v: PlayerView)
    requires
        shape_ok(v),
        tehai_sum(v) <= 14,
    ensures
        good(with_shanten(v), 14),
        same_counts(with_shanten(v), v),
{
    reveal(with_shanten);
    lemma_range_nonneg(v.tehai@, 27);
    lemma_calc_with_ding_que_bound(v.tehai@, tehai_sum(v) / 3, v.ding_que);
}

/// `a` has the shape, hand and shanten number of `b`: the same seat, melds, hand, shanten
/// number and meld lists, no longer a kan record, and fixed-length lists still of their
/// lengths.
pub open spec fn keeps_shape(a: PlayerView, b: PlayerView) -> bool {
    &&& a.player_id == b.player_id
    &&& a.tehai == b.tehai
    &&& a.shanten == b.shanten
    &&& a.intermediate_kan.len() <= b.intermediate_kan.len()
    &&& a.pons == b.pons
    &&& a.minkans == b.minkans
    &&& a.ankans == b.ankans
    &&& a.fuuro_overview == b.fuuro_overview
    &&& a.ankan_overview == b.ankan_overview
    &&& (b.waits.len() == 27 ==> a.waits.len() == 27)
    &&& (b.keep_shanten_discards.len() == 27 ==> a.keep_shanten_discards.len() == 27)
    &&& (b.next_shanten_discards.len() == 27 ==> a.next_shanten_discards.len() == 27)
    &&& (b.forbidden_tiles.len() == 27 ==> a.forbidden_tiles.len() == 27)
    &&& (b.kawa.len() == 4 ==> a.kawa.len() == 4)
    &&& (b.kawa_overview.len() == 4 ==> a.kawa_overview.len() == 4)
}

proof fn lemma_keeps_good(a: PlayerView, b: PlayerView, k: int)
    requires
        keeps_shape(a, b),
        good(b, k),
    ensures
        good(a, k),
{
}

/// The pieces that leave the hand, the shanten number and the melds alone keep the shape.
proof fn lemma_frames_a()
    ensures
        forall|v: PlayerView| #![trigger with_shanten_discards(v)] keeps_shape(with_shanten_discards(v), v),
        forall|v: PlayerView| #![trigger with_waits(v)] keeps_shape(with_waits(v), v),
        forall|v: PlayerView| #![trigger with_ding_que_forbidden(v)] keeps_shape(with_ding_que_forbidden(v), v),
        forall|v: PlayerView| #![trigger with_kan_candidates(v)] keeps_shape(with_kan_candidates(v), v),
        forall|v: PlayerView, a: bool, b: bool| #![trigger with_drawn_win(v, a, b)] keeps_shape(with_drawn_win(v, a, b), v),
        forall|v: PlayerView| #![trigger with_kans_unless_last(v)] keeps_shape(with_kans_unless_last(v), v),
        forall|v: PlayerView| #![trigger kans_and_void_unless_last(v)] keeps_shape(kans_and_void_unless_last(v), v),
{
    reveal(with_shanten_discards);
    reveal(with_waits);
    reveal(with_ding_que_forbidden);
    reveal(with_kan_candidates);
    reveal(with_drawn_win);
    reveal(with_kans_unless_last);
    reveal(kans_and_void_unless_last);
}

proof fn lemma_frames_b()
    ensures
        forall|v: PlayerView, t: Tile| #![trigger ron_offer(v, t)] keeps_shape(ron_offer(v, t), v),
        forall|v: PlayerView, t: Tile| #![trigger call_options(v, t)] keeps_shape(call_options(v, t), v),
        forall|v: PlayerView, a: u8, t: Tile| #![trigger chankan_offer(v, a, t)] keeps_shape(chankan_offer(v, a, t), v),
        forall|v: PlayerView, a: u8, t: Tile| #![trigger chankan_check(v, a, t)] keeps_shape(chankan_check(v, a, t), v),
        forall|v: PlayerView, e: Event| #![trigger prologue(v, e)] keeps_shape(prologue(v, e), v),
        forall|v: PlayerView, a: u8, s: crate::mjai::Suit| #![trigger named(v, a, s)] keeps_shape(named(v, a, s), v),
{
    reveal(ron_offer);
    reveal(call_options);
    reveal(chankan_offer);
    reveal(chankan_check);
    reveal(prologue);
    reveal(named);
}

proof fn lemma_frames_c()
    ensures
        forall|v: PlayerView, t: Tile| #![trigger begin_draw(v, t)] keeps_shape(begin_draw(v, t), v),
        forall|v: PlayerView| #![trigger discarded(v)] keeps_shape(discarded(v), v),
        forall|v: PlayerView| #![trigger begin_own_pon(v)] keeps_shape(begin_own_pon(v), v),
        forall|v: PlayerView| #![trigger begin_own_kan(v)] keeps_shape(begin_own_kan(v), v),
        forall|v: PlayerView, t: Tile| #![trigger begin_own_kakan(v, t)] keeps_shape(begin_own_kakan(v, t), v),
        forall|v: PlayerView, a: u8| #![trigger pad_kawa(v, a)] keeps_shape(pad_kawa(v, a), v),
        forall|v: PlayerView, r: int, t: Tile, b: bool|
            #![trigger to_kawa(v, r, t, b)]
            0 <= r < 4 ==> keeps_shape(to_kawa(v, r, t, b), v),
{
    reveal(begin_draw);
    reveal(discarded);
    reveal(begin_own_pon);
    reveal(begin_own_kan);
    reveal(begin_own_kakan);
    reveal(pad_kawa);
    reveal(to_kawa);
}

proof fn lemma_void_shanten_discards_good(v: PlayerView)
    requires
        shape_ok(v),
        tehai_sum(v) <= 14,
    ensures
        good(void_shanten_discards(v), 14),
{
    lemma_frames_a();
    reveal(void_shanten_discards);
    let u = with_ding_que_forbidden(v);
    lemma_with_shanten_good(u);
    lemma_keeps_good(with_shanten_discards(with_shanten(u)), with_shanten(u), 14);
}

#[verifier::spinoff_prover]
#[verifier::rlimit(40)]
proof fn lemma_start_discard_turn_good(v: PlayerView)
    requires
        shape_ok(v),
        tehai_sum(v) <= 14,
    ensures
        good(start_discard_turn(v), 14),
{
    lemma_frames_a();
    reveal(start_discard_turn);
    let w = PlayerView {
        last_cans: crate::state::action::ActionCandidate {
            target_actor: v.player_id,
            can_discard: true,
            ..v.last_cans
        },
        ..v
    };
    let u = with_ding_que_forbidden(w);
    lemma_with_shanten_good(u);
    lemma_keeps_good(with_shanten_discards(with_shanten(u)), with_shanten(u), 14);
}

proof fn lemma_own_turn_shanten_good(v: PlayerView)
    requires
        shape_ok(v),
        tehai_sum(v) <= 14,
    ensures
        good(own_turn_shanten(v), 14),
{
    lemma_frames_a();
    reveal(own_turn_shanten);
    let w = PlayerView {
        last_cans: crate::state::action::ActionCandidate { can_discard: true, ..v.last_cans },
        ..v
    };
    lemma_with_shanten_good(w);
    lemma_keeps_good(with_shanten_discards(with_shanten(w)), with_shanten(w), 14);
}

proof fn lemma_await_void_choice_good(v: PlayerView)
    requires
        shape_ok(v),
        tehai_sum(v) <= 14,
    ensures
        good(await_void_choice(v), 14),
{
    reveal(await_void_choice);
    let w = PlayerView {
        last_cans: crate::state::action::ActionCandidate {
            can_ding_que: true,
            can_discard: false,
            ..v.last_cans
        },
        ..v
    };
    lemma_with_shanten_good(w);
}

proof fn lemma_dealt_good(v: PlayerView)
    requires
        shape_ok(v),
        tehai_sum(v) <= 14,
    ensures
        good(dealt(v), 14),
{
    reveal(dealt);
    let w = PlayerView { tehai_len_div3: (tehai_sum(v) / 3) as u8, ..v };
    lemma_with_shanten_good(w);
}

proof fn lemma_without_len(s: Seq<u8>, x: u8)
    ensures
        without(s, x).len() <= s.len(),
    decreases s.len(),
{
    if s.len() > 0 {
        lemma_without_len(s.drop_last(), x);
    }
}

/// A kind held in a list has a first position.
proof fn lemma_first_index(s: Seq<u8>, x: u8, w: int)
    requires
        0 <= w < s.len(),
        s[w] == x,
    ensures
        exists|j: int| 0 <= j <= w && s[j] == x && forall|i: int| 0 <= i < j ==> s[i] != x,
    decreases w,
{
    if exists|i: int| 0 <= i < w && s[i] == x {
        let i = choose|i: int| 0 <= i < w && s[i] == x;
        lemma_first_index(s, x, i);
    }
}

/// `index_of` finds a position of the kind.
proof fn lemma_index_of(s: Seq<u8>, x: u8)
    ensures
        index_of(s, x) matches Some(p) ==> 0 <= p < s.len() && s[p] == x,
{
    if s.contains(x) {
        let w = choose|w: int| 0 <= w < s.len() && s[w] == x;
        lemma_first_index(s, x, w);
    }
}

/// A meld starting with `t` has a first one.
proof fn lemma_first_meld(melds: Seq<Seq<Tile>>, t: Tile, w: int)
    requires
        0 <= w < melds.len(),
        melds[w][0] == t,
    ensures
        exists|j: int|
            0 <= j <= w && melds[j][0] == t && forall|i: int| 0 <= i < j ==> melds[i][0] != t,
    decreases w,
{
    if exists|i: int| 0 <= i < w && melds[i][0] == t {
        let i = choose|i: int| 0 <= i < w && melds[i][0] == t;
        lemma_first_meld(melds, t, i);
    }
}

/// `first_meld_of` finds a meld starting with `t`.
proof fn lemma_first_meld_of(melds: Seq<Seq<Tile>>, t: Tile)
    ensures
        first_meld_of(melds, t) matches Some(j) ==> 0 <= j < melds.len() && melds[j][0] == t,
{
    if exists|j: int| 0 <= j < melds.len() && melds[j][0] == t {
        let w = choose|j: int| 0 <= j < melds.len() && melds[j][0] == t;
        lemma_first_meld(melds, t, w);
    }
}

/// A four-tile meld of kind `t` has a first one.
proof fn lemma_first_unkan(melds: Seq<Seq<Tile>>, t: int, w: int)
    requires
        0 <= w < melds.len(),
        melds[w].len() > 0 && melds[w][0]@ == t && melds[w].len() == 4,
    ensures
        exists|j: int|
            0 <= j < melds.len() && melds[j].len() > 0 && melds[j][0]@ == t && melds[j].len() == 4
                && forall|i: int|
                0 <= i < j ==> !(melds[i].len() > 0 && melds[i][0]@ == t && melds[i].len() == 4),
    decreases w,
{
    if exists|i: int| 0 <= i < w && melds[i].len() > 0 && melds[i][0]@ == t && melds[i].len() == 4 {
        let i = choose|i: int|
            0 <= i < w && melds[i].len() > 0 && melds[i][0]@ == t && melds[i].len() == 4;
        lemma_first_unkan(melds, t, i);
    } else {
        assert(forall|i: int|
            0 <= i < w ==> !(melds[i].len() > 0 && melds[i][0]@ == t && melds[i].len() == 4));
    }
}

/// Adding or changing one seat's meld list keeps the shape.
proof fn lemma_meld_lists_good(v: PlayerView, r: int, m: Seq<Tile>, t: Tile, k: int)
    requires
        good(v, k),
        0 <= r < 4,
        m.len() >= 1,
    ensures
        good(add_meld(v, r, m), k),
        good(kakan_meld(v, r, t), k),
        good(add_ankan(v, r, t), k),
        add_meld(v, r, m).pons == v.pons && add_meld(v, r, m).minkans == v.minkans
            && add_meld(v, r, m).ankans == v.ankans,
        kakan_meld(v, r, t).pons == v.pons && kakan_meld(v, r, t).minkans == v.minkans
            && kakan_meld(v, r, t).ankans == v.ankans,
        add_ankan(v, r, t).pons == v.pons && add_ankan(v, r, t).minkans == v.minkans
            && add_ankan(v, r, t).ankans == v.ankans,
{
    reveal(add_meld);
    reveal(kakan_meld);
    reveal(add_ankan);
    let a = add_meld(v, r, m);
    assert forall|q: int, j: int| 0 <= q < 4 && 0 <= j < a.fuuro_overview[q].len() implies #[trigger] a.fuuro_overview[q][j].len() >= 1 by {
        if q == r && j == v.fuuro_overview[r].len() {
        } else {
            assert(a.fuuro_overview[q][j] == v.fuuro_overview[q][j]);
        }
    }
    let b = kakan_meld(v, r, t);
    lemma_first_meld_of(v.fuuro_overview[r], t);
    assert forall|q: int, j: int| 0 <= q < 4 && 0 <= j < b.fuuro_overview[q].len() implies #[trigger] b.fuuro_overview[q][j].len() >= 1 by {
        match first_meld_of(v.fuuro_overview[r], t) {
            Some(jj) => {
                if q == r && j == jj {
                } else {
                    assert(b.fuuro_overview[q][j] == v.fuuro_overview[q][j]);
                }
            },
            None => {},
        }
    }
}

/// Turning a kan back into a pon in one seat's meld list keeps the shape.
#[verifier::spinoff_prover]
proof fn lemma_unkan_good(v: PlayerView, r: int, t: int)
    requires
        shape_ok(v),
        0 <= r < 4,
    ensures
        shape_ok(unkan_meld(v, r, t)),
        unkan_meld(v, r, t).tehai == v.tehai,
        unkan_meld(v, r, t).shanten == v.shanten,
        unkan_meld(v, r, t).intermediate_kan == v.intermediate_kan,
{
    reveal(unkan_meld);
    let c = unkan_meld(v, r, t);
    let melds = v.fuuro_overview[r];
    if exists|j: int| 0 <= j < melds.len() && melds[j].len() > 0 && melds[j][0]@ == t && melds[j].len() == 4 {
        let w = choose|j: int| 0 <= j < melds.len() && melds[j].len() > 0 && melds[j][0]@ == t && melds[j].len() == 4;
        lemma_first_unkan(melds, t, w);
        let jj = choose|j: int|
            0 <= j < melds.len() && melds[j].len() > 0 && melds[j][0]@ == t && melds[j].len() == 4
                && forall|i: int|
                0 <= i < j ==> !(melds[i].len() > 0 && melds[i][0]@ == t && melds[i].len() == 4);
        assert forall|q: int, j: int| 0 <= q < 4 && 0 <= j < c.fuuro_overview[q].len() implies #[trigger] c.fuuro_overview[q][j].len() >= 1 by {
            if q == r && j == jj {
            } else {
                assert(c.fuuro_overview[q][j] == v.fuuro_overview[q][j]);
            }
        }
    }
}

/// Recording a pon with fewer than four pons keeps the shape.
proof fn lemma_record_pon_good(v: PlayerView, t: Tile, k: int)
    requires
        good(v, k),
        v.pons.len() < 4,
        t@ < 27,
    ensures
        good(record_pon(v, t), k),
{
    reveal(record_pon);
}

/// A pon turned into a kan, with fewer than four open kans, keeps the shape, the hand and the
/// shanten number.
proof fn lemma_pon_to_kan_good(v: PlayerView, t: Tile)
    requires
        shape_ok(v),
        v.minkans.len() < 4,
    ensures
        shape_ok(pon_to_kan(v, t)),
        pon_to_kan(v, t).tehai == v.tehai,
        pon_to_kan(v, t).shanten == v.shanten,
{
    reveal(pon_to_kan);
    lemma_without_len(v.pons, t@);
}

/// Recording a kan with room for it keeps a good state.
proof fn lemma_finish_kan_good(v: PlayerView, t: u8, open: bool)
    requires
        shape_ok(v),
        tehai_sum(v) <= 14,
        open ==> v.minkans.len() < 4,
        !open ==> v.ankans.len() < 4,
    ensures
        good(finish_kan(v, t, open), 14),
{
    lemma_frames_a();
    reveal(finish_kan);
    let w = if open {
        PlayerView { minkans: v.minkans.push(t), ..v }
    } else {
        PlayerView { ankans: v.ankans.push(t), ..v }
    };
    lemma_with_shanten_good(w);
    lemma_keeps_good(with_waits(with_shanten(w)), with_shanten(w), 14);
}

/// The shanten number after a tile leaves a hand whose number was one closer to the hand size.
proof fn lemma_shanten_after_leaving_good(v: PlayerView, t: int, b: bool)
    requires
        shape_ok(v),
        tehai_sum(v) <= 14,
        v.shanten >= tehai_sum(v) - 14,
    ensures
        good(shanten_after_leaving(v, t, b), 15),
{
    reveal(shanten_after_leaving);
    lemma_with_shanten_good(v);
}

/// Undoing this seat's robbed kan, with room for the pon it returns to, keeps a good state.
#[verifier::spinoff_prover]
proof fn lemma_revert_kan_good(v: PlayerView, t: u8)
    requires
        shape_ok(v),
        tehai_sum(v) <= 14,
        index_of(v.minkans, t) is Some ==> v.pons.len() < 4,
    ensures
        good(revert_kan(v, t), 14),
{
    lemma_frames_a();
    lemma_index_of(v.minkans, t);
    reveal(revert_kan);
    let w1 = match index_of(v.minkans, t) {
        Some(pos) => PlayerView { minkans: v.minkans.remove(pos), pons: v.pons.push(t), ..v },
        None => v,
    };
    let w0 = PlayerView {
        pending_kakan_tile: None,
        at_rinshan: false,
        intermediate_kan: Seq::empty(),
        kans_on_board: if w1.kans_on_board > 0 {
            (w1.kans_on_board - 1) as u8
        } else {
            0
        },
        ..w1
    };
    assert(shape_ok(w0));
    lemma_unkan_good(w0, 0, t as int);
    let w2 = unkan_meld(w0, 0, t as int);
    lemma_with_shanten_good(w2);
    lemma_keeps_good(with_shanten_discards(with_shanten(w2)), with_shanten(w2), 14);
    lemma_keeps_good(with_waits(with_shanten(w2)), with_shanten(w2), 14);
}

/// Undoing another seat's robbed kan keeps a good state.
proof fn lemma_undo_chankan_good(v: PlayerView, target: u8, k: int)
    requires
        good(v, k),
        target < 4,
    ensures
        good(undo_chankan(v, target), k),
{
    reveal(undo_chankan);
    let w = PlayerView {
        intermediate_kan: Seq::empty(),
        kans_on_board: if v.kans_on_board > 0 {
            (v.kans_on_board - 1) as u8
        } else {
            0
        },
        ..v
    };
    lemma_unkan_good(w, rel(v, target), v.intermediate_kan[0]@ as int);
}

/// Seeing a tile changes only what the seat has seen.
pub(crate) proof fn lemma_witness_only_seen(v: PlayerView, t: Tile)
    ensures
        witness(v, t).0 == (PlayerView { tiles_seen: witness(v, t).0.tiles_seen, ..v }),
{
}

pub(crate) proof fn lemma_witness_all_only_seen(v: PlayerView, tiles: Seq<Tile>)
    ensures
        witness_all(v, tiles).0 == (PlayerView { tiles_seen: witness_all(v, tiles).0.tiles_seen, ..v }),
    decreases tiles.len(),
{
    if tiles.len() > 0 {
        lemma_witness_all_only_seen(v, tiles.drop_last());
        let (v1, r1) = witness_all(v, tiles.drop_last());
        if r1 is Ok {
            lemma_witness_only_seen(v1, tiles.last());
        }
    }
}

/// Taking a real tile out changes only the hand: one tile less when it succeeds.
proof fn lemma_take_out_effect(v: PlayerView, t: Tile, discard: bool)
    requires
        t@ < 27,
    ensures
        take_out(v, t, discard).0 == (PlayerView { tehai: take_out(v, t, discard).0.tehai, ..v }),
        take_out(v, t, discard).1 is Ok ==> tehai_sum(take_out(v, t, discard).0) == tehai_sum(v) - 1,
        take_out(v, t, discard).1 is Err ==> take_out(v, t, discard).0 == v,
        take_out(v, t, discard).1 is Ok <==> v.tehai[t@ as int] != 0,
{
    if v.tehai[t@ as int] != 0 {
        lemma_range_update(v.tehai@, t@ as int, (v.tehai[t@ as int] - 1) as u8, 27);
    }
}

/// Taking real tiles out changes only the hand, and never enlarges it; whether it succeeds
/// depends on the hand alone.
proof fn lemma_take_out_all_effect(v: PlayerView, w: PlayerView, tiles: Seq<Tile>)
    requires
        known(tiles),
        v.tehai == w.tehai,
    ensures
        take_out_all(v, tiles).0 == (PlayerView { tehai: take_out_all(v, tiles).0.tehai, ..v }),
        tehai_sum(take_out_all(v, tiles).0) <= tehai_sum(v),
        take_out_all(v, tiles).1 == take_out_all(w, tiles).1,
        take_out_all(v, tiles).0.tehai == take_out_all(w, tiles).0.tehai,
    decreases tiles.len(),
{
    if tiles.len() > 0 {
        assert(known(tiles.drop_last()));
        lemma_take_out_all_effect(v, w, tiles.drop_last());
        let (v1, r1) = take_out_all(v, tiles.drop_last());
        let (w1, s1) = take_out_all(w, tiles.drop_last());
        if r1 is Ok {
            assert(tiles.last() == tiles[tiles.len() - 1]);
            lemma_take_out_effect(v1, tiles.last(), false);
            lemma_take_out_effect(w1, tiles.last(), false);
        }
    }
}

/// A deal that ends without error changes only the hand and what is seen, and adds one tile
/// per tile dealt.
proof fn lemma_deal_effect(c: PlayerView, tiles: Seq<Tile>)
    requires
        counts_ok(c),
        deal(c, tiles).1 is Ok,
    ensures
        deal(c, tiles).0 == (PlayerView {
            tehai: deal(c, tiles).0.tehai,
            tiles_seen: deal(c, tiles).0.tiles_seen,
            ..c
        }),
        tehai_sum(deal(c, tiles).0) == tehai_sum(c) + tiles.len(),
    decreases tiles.len(),
{
    if tiles.len() > 0 {
        lemma_deal_effect(c, tiles.drop_last());
        lemma_deal_counts(c, tiles.drop_last());
        let (v1, r1) = deal(c, tiles.drop_last());
        let t = tiles.last();
        assert(t@ < 27);
        lemma_range_update(v1.tehai@, t@ as int, (v1.tehai[t@ as int] + 1) as u8, 27);
    }
}

/// A cleared state has a good shape and an empty hand.
proof fn lemma_cleared_shape(v: PlayerView, kyoku: u8, oya: u8, scores: [i32; 4])
    requires
        v.player_id < 4,
    ensures
        shape_ok(cleared_for(v, kyoku, oya, scores)),
        tehai_sum(cleared_for(v, kyoku, oya, scores)) == 0,
        counts_ok(cleared_for(v, kyoku, oya, scores)),
{
    lemma_cleared_counts(v, kyoku, oya, scores);
    reveal(cleared_for);
    let c = cleared_for(v, kyoku, oya, scores);
    lemma_range_zero(c.tehai@, 27);
}

/// A drawn tile goes into the hand: one more tile.
proof fn lemma_take_in_effect(v: PlayerView, t: Tile)
    requires
        t@ < 27,
        v.tehai[t@ as int] < 255,
    ensures
        take_in(v, t) == (PlayerView { tehai: take_in(v, t).tehai, ..v }),
        tehai_sum(take_in(v, t)) == tehai_sum(v) + 1,
{
    reveal(take_in);
    lemma_range_update(v.tehai@, t@ as int, (v.tehai[t@ as int] + 1) as u8, 27);
}

/// After the prologue of every event but a deal refused for a fifth copy, the effect of the
/// event keeps a good state (slack 15).
#[verifier::spinoff_prover]
#[verifier::rlimit(40)]
proof fn lemma_event_good(v: PlayerView, ev: Event)
    requires
        wf(v),
        update_ok(v, ev),
        !(ev is StartKyoku && spec_update(v, ev).1 is Err),
    ensures
        good(spec_update(v, ev).0, 15),
{
    lemma_frames_a();
    lemma_frames_b();
    lemma_frames_c();
    let p = prologue(v, ev);
    lemma_keeps_good(p, v, 15);
    assert(same_counts(p, v)) by {
        lemma_offers_keep_counts();
    }
    match ev {
        Event::StartKyoku { kyoku, oya, scores, tehais } => {
            let c = cleared_for(p, kyoku, oya, scores);
            lemma_cleared_shape(p, kyoku, oya, scores);
            let tiles = tehais[p.player_id as int]@;
            lemma_deal_effect(c, tiles);
            let d = deal(c, tiles).0;
            assert(shape_ok(d));
            lemma_dealt_good(d);
        },
        Event::DingQue { actor, suit } => {
            let v1 = named(p, actor, suit);
            lemma_keeps_good(v1, p, 15);
            lemma_start_discard_turn_good(v1);
            let a = start_discard_turn(v1);
            lemma_keeps_good(with_drawn_win(a, false, false), a, 14);
            lemma_keeps_good(with_kans_unless_last(with_drawn_win(a, false, false)), with_drawn_win(a, false, false), 14);
        },
        Event::Tsumo { actor, pai } => {
            let v0 = count_draw(p);
            if actor == v0.player_id && !v0.has_agari {
                let b = begin_draw(v0, pai);
                lemma_keeps_good(b, v0, 15);
                lemma_witness_only_seen(b, pai);
                let v2 = witness(b, pai).0;
                if witness(b, pai).1 is Ok {
                    assert(counts_ok(v2)) by {
                        lemma_records_keep_counts();
                        lemma_witness_counts(b, pai);
                    }
                    assert(v2.tehai[pai@ as int] <= v2.tiles_seen[pai@ as int] <= 4);
                    lemma_take_in_effect(v2, pai);
                    let v3 = take_in(v2, pai);
                    assert(shape_ok(v3));
                    if v3.ding_que is None {
                        lemma_await_void_choice_good(v3);
                    } else {
                        lemma_own_turn_shanten_good(v3);
                        let a = own_turn_shanten(v3);
                        let b1 = with_drawn_win(a, a.at_rinshan, a.tiles_left == 0);
                        lemma_keeps_good(b1, a, 14);
                        lemma_keeps_good(kans_and_void_unless_last(b1), b1, 14);
                    }
                }
            }
        },
        Event::Dahai { actor, pai, tsumogiri } => {
            let r = rel(p, actor);
            if r == 0 {
                lemma_take_out_effect(p, pai, true);
                if take_out(p, pai, true).1 is Ok {
                    let v1 = take_out(p, pai, true).0;
                    assert(good(v1, 14));
                    let v2 = to_kawa(v1, 0, pai, tsumogiri);
                    lemma_keeps_good(v2, v1, 14);
                    let v3 = discarded(v2);
                    lemma_keeps_good(v3, v2, 14);
                    let b = spec_is_ding_que_tile(pai@ as int, v3.ding_que);
                    lemma_shanten_after_leaving_good(v3, pai@ as int, b);
                    let w = shanten_after_leaving(v3, pai@ as int, b);
                    lemma_keeps_good(with_waits(w), w, 15);
                }
            } else {
                lemma_witness_only_seen(p, pai);
                let v1 = witness(p, pai).0;
                if witness(p, pai).1 is Ok {
                    let v2 = to_kawa(v1, r, pai, tsumogiri);
                    lemma_keeps_good(v2, v1, 15);
                    let v3 = ron_offer(v2, pai);
                    lemma_keeps_good(v3, v2, 15);
                    lemma_keeps_good(call_options(v3, pai), v3, 15);
                }
            }
        },
        Event::Pon { actor, target, pai, consumed } => {
            let r = rel(p, actor);
            let m = called_set(consumed, pai);
            lemma_meld_lists_good(p, r, m, pai, 15);
            let v1 = add_meld(p, r, m);
            assert(same_counts(v1, p)) by {
                lemma_records_keep_counts();
            }
            if r != 0 {
                lemma_witness_all_only_seen(v1, consumed@);
            } else {
                let u1 = pad_kawa(v1, target);
                lemma_keeps_good(u1, v1, 15);
                let u = begin_own_pon(u1);
                lemma_keeps_good(u, u1, 15);
                lemma_take_out_all_effect(u, p, consumed@);
                let v4 = take_out_all(u, consumed@).0;
                assert(good(v4, 15));
                if take_out_all(u, consumed@).1 is Ok {
                    lemma_record_pon_good(v4, pai, 15);
                    lemma_void_shanten_discards_good(record_pon(v4, pai));
                }
            }
        },
        Event::Daiminkan { actor, target, pai, consumed, deltas } => {
            let r = rel(p, actor);
            let m = called_set(consumed, pai);
            let p1 = with_deltas(p, deltas);
            lemma_meld_lists_good(p1, r, m, pai, 15);
            let v1 = add_meld(p1, r, m);
            assert(same_counts(v1, p1)) by {
                lemma_records_keep_counts();
            }
            if r != 0 {
                lemma_witness_all_only_seen(kan_declared(v1, pai), consumed@);
            } else {
                let u1 = pad_kawa(v1, target);
                lemma_keeps_good(u1, v1, 15);
                let u2 = kan_declared(u1, pai);
                let u = begin_own_kan(u2);
                lemma_keeps_good(u, u2, 15);
                lemma_take_out_all_effect(u, p, consumed@);
                let v6 = take_out_all(u, consumed@).0;
                assert(good(v6, 15));
                if take_out_all(u, consumed@).1 is Ok {
                    lemma_finish_kan_good(v6, pai@, true);
                }
            }
        },
        Event::Kakan { actor, pai, deltas, .. } => {
            let r = rel(p, actor);
            let p1 = with_deltas(p, deltas);
            lemma_meld_lists_good(p1, r, seq![pai], pai, 15);
            let k1 = kakan_meld(p1, r, pai);
            assert(same_counts(k1, p1)) by {
                lemma_kans_keep_counts();
            }
            let v1 = kan_declared(k1, pai);
            if r != 0 {
                if !v1.has_agari {
                    lemma_witness_only_seen(v1, pai);
                    let v2 = witness(v1, pai).0;
                    if witness(v1, pai).1 is Ok {
                        lemma_keeps_good(chankan_check(v2, actor, pai), v2, 15);
                    }
                }
            } else {
                let u = begin_own_kakan(v1, pai);
                lemma_keeps_good(u, v1, 15);
                lemma_take_out_effect(u, pai, false);
                lemma_take_out_effect(p, pai, false);
                if take_out(u, pai, false).1 is Ok {
                    let v3 = take_out(u, pai, false).0;
                    assert(good(v3, 14));
                    lemma_pon_to_kan_good(v3, pai);
                    let w = pon_to_kan(v3, pai);
                    lemma_shanten_after_leaving_good(w, pai@ as int, false);
                    let x = shanten_after_leaving(w, pai@ as int, false);
                    lemma_keeps_good(with_waits(x), x, 15);
                }
            }
        },
        Event::Ankan { actor, consumed, deltas } => {
            let r = rel(p, actor);
            let t = consumed[0];
            let p1 = with_deltas(p, deltas);
            lemma_meld_lists_good(p1, r, seq![t], t, 15);
            let a1 = add_ankan(p1, r, t);
            assert(same_counts(a1, p1)) by {
                lemma_kans_keep_counts();
            }
            let v1 = kan_declared(a1, t);
            if r != 0 {
                lemma_witness_all_only_seen(v1, consumed@);
            } else {
                let u = begin_own_kan(v1);
                lemma_keeps_good(u, v1, 15);
                lemma_take_out_all_effect(u, p, consumed@);
                let v3 = take_out_all(u, consumed@).0;
                assert(good(v3, 15));
                if take_out_all(u, consumed@).1 is Ok {
                    lemma_finish_kan_good(v3, t@, false);
                }
            }
        },
        Event::Hora { actor, target, deltas } => {
            let r = rel(p, actor);
            let v1 = PlayerView {
                players_agari: spec_array_update(p.players_agari, r, true),
                has_agari: if r == 0 {
                    true
                } else {
                    p.has_agari
                },
                ..p
            };
            assert(good(v1, 15));
            let v2 = if target == v1.player_id && actor != v1.player_id && v1.pending_kakan_tile is Some {
                lemma_revert_kan_good(v1, v1.pending_kakan_tile->0);
                revert_kan(v1, v1.pending_kakan_tile->0)
            } else {
                v1
            };
            assert(good(v2, 15));
            if target != v2.player_id && actor != target && v2.intermediate_kan.len() > 0 {
                lemma_undo_chankan_good(v2, target, 15);
            }
        },
        _ => {},
    }
}

/// Every accepted event keeps what a seat's state keeps between events (`wf`): no more of a
/// kind held than seen and at most four seen, at most fourteen tiles in hand, at most one kan
/// record and four melds of each kind, the lists of their lengths, no empty meld, and the
/// shanten number within reach of the hand size. (A deal refused for a fifth copy is the one
/// event whose partial state is not covered.)
pub proof fn lemma_update_keeps_wf(v: PlayerView, ev: Event)
    requires
        wf(v),
        update_ok(v, ev),
        !(ev is StartKyoku && spec_update(v, ev).1 is Err),
    ensures
        wf(spec_update(v, ev).0),
{
    lemma_update_keeps_counts(v, ev);
    lemma_event_good(v, ev);
}

/// A fresh seat's state keeps what every state keeps (`wf`).
pub proof fn lemma_fresh_wf(v: PlayerView, player_id: u8)
    requires
        is_fresh(v, player_id),
        player_id < 4,
    ensures
        wf(v),
{
    lemma_range_zero(v.tehai@, 27);
    assert forall|t: int| 0 <= t < 27 implies v.tehai[t] <= #[trigger] v.tiles_seen[t] <= 4 by {
        assert(v.tehai@[t] == 0);
        assert(v.tiles_seen@[t] == 0);
    }
}

} // verus!
