//! Temporary furiten: a seat that lets a ron pass may not ron again until its next draw,
//! unless the new ron scores more than the best one it passed.
use crate::mjai::{Event, spec_actor};
use crate::state::invariants::{lemma_witness_all_only_seen, lemma_witness_only_seen};
use crate::state::player_state::PlayerView;
use crate::state::rules::{
    add_ankan, add_meld, call_options, called_set, kan_declared, with_deltas, chankan_check, chankan_offer, dealer_ready, kakan_meld,
    named, prologue, rel, revert_kan, ron_allowed, ron_offer, spec_update, start_discard_turn,
    to_kawa, undo_chankan, unkan_meld, update_ok, wf, with_ding_que_forbidden, with_drawn_win,
    with_kan_candidates, with_kans_unless_last, witness, with_shanten, with_shanten_discards, with_waits,
};
use crate::tile::Tile;
use vstd::prelude::*;

verus! {

/// `a` is in temporary furiten exactly as `b` is.
pub open spec fn same_furiten(a: PlayerView, b: PlayerView) -> bool {
    a.temporary_furiten == b.temporary_furiten && a.furiten_passed_ron_fan
        == b.furiten_passed_ron_fan
}

/// The event leaves a ron on offer unanswered: the seat passes, or another seat acts.
pub open spec fn lets_ron_pass(v: PlayerView, ev: Event) -> bool {
    ev is Empty || (spec_actor(ev) matches Some(a) && a != v.player_id)
}

/// The best fan passed so far, counting the ron now on offer.
pub open spec fn passed_fan(v: PlayerView) -> Option<u8> {
    match (v.furiten_passed_ron_fan, v.current_ron_fan) {
        (Some(p), Some(c)) => Some(
            if p >= c {
                p
            } else {
                c
            },
        ),
        (Some(p), None) => Some(p),
        (None, c) => c,
    }
}

/// The pieces other seats' events go through leave temporary furiten alone.
proof fn lemma_others_keep_furiten()
    ensures
        forall|v: PlayerView, t: Tile| #![trigger ron_offer(v, t)] same_furiten(ron_offer(v, t), v),
        forall|v: PlayerView, t: Tile| #![trigger call_options(v, t)] same_furiten(call_options(v, t), v),
        forall|v: PlayerView, a: u8, t: Tile| #![trigger chankan_check(v, a, t)] same_furiten(chankan_check(v, a, t), v),
        forall|v: PlayerView, r: int, t: Tile, b: bool| #![trigger to_kawa(v, r, t, b)] same_furiten(to_kawa(v, r, t, b), v),
        forall|v: PlayerView, r: int, m: Seq<Tile>| #![trigger add_meld(v, r, m)] same_furiten(add_meld(v, r, m), v),
        forall|v: PlayerView, r: int, t: Tile| #![trigger kakan_meld(v, r, t)] same_furiten(kakan_meld(v, r, t), v),
        forall|v: PlayerView, r: int, t: Tile| #![trigger add_ankan(v, r, t)] same_furiten(add_ankan(v, r, t), v),
        forall|v: PlayerView, a: u8, s: crate::mjai::Suit| #![trigger named(v, a, s)] same_furiten(named(v, a, s), v),
{
    reveal(ron_offer);
    reveal(call_options);
    reveal(chankan_check);
    reveal(chankan_offer);
    reveal(to_kawa);
    reveal(add_meld);
    reveal(kakan_meld);
    reveal(add_ankan);
    reveal(named);
}

/// Naming the last void suit and undoing robbed kans leave temporary furiten alone.
#[verifier::spinoff_prover]
proof fn lemma_turns_keep_furiten()
    ensures
        forall|v: PlayerView| #![trigger dealer_ready(v)] same_furiten(dealer_ready(v), v),
        forall|v: PlayerView, t: u8| #![trigger revert_kan(v, t)] same_furiten(revert_kan(v, t), v),
        forall|v: PlayerView, a: u8| #![trigger undo_chankan(v, a)] same_furiten(undo_chankan(v, a), v),
{
    reveal(with_shanten);
    reveal(with_shanten_discards);
    reveal(with_waits);
    reveal(with_ding_que_forbidden);
    reveal(with_kan_candidates);
    reveal(with_drawn_win);
    reveal(with_kans_unless_last);
    reveal(start_discard_turn);
    reveal(unkan_meld);
    reveal(revert_kan);
    reveal(undo_chankan);
}

/// A seat that lets a ron on offer pass (it passes, or another seat acts) is in temporary
/// furiten after the event, remembering the best fan it has passed.
pub proof fn lemma_passed_ron_is_furiten(v: PlayerView, ev: Event)
    requires
        wf(v),
        update_ok(v, ev),
        v.last_cans.can_ron_agari,
        lets_ron_pass(v, ev),
    ensures
        spec_update(v, ev).0.temporary_furiten,
        spec_update(v, ev).0.furiten_passed_ron_fan == passed_fan(v),
{
    lemma_others_keep_furiten();
    lemma_turns_keep_furiten();
    reveal(prologue);
    let p = prologue(v, ev);
    assert(p.temporary_furiten && p.furiten_passed_ron_fan == passed_fan(v));
    assert(p.player_id == v.player_id);
    match ev {
        Event::Dahai { actor, pai, tsumogiri } => {
            let r = rel(p, actor);
            assert(r != 0);
            lemma_witness_only_seen(p, pai);
        },
        Event::Pon { actor, target, pai, consumed } => {
            let r = rel(p, actor);
            assert(r != 0);
            lemma_witness_all_only_seen(add_meld(p, r, called_set(consumed, pai)), consumed@);
        },
        Event::Daiminkan { actor, target, pai, consumed, deltas } => {
            let r = rel(p, actor);
            assert(r != 0);
            let v1 = add_meld(with_deltas(p, deltas), r, called_set(consumed, pai));
            lemma_witness_all_only_seen(kan_declared(v1, pai), consumed@);
        },
        Event::Kakan { actor, pai, deltas, .. } => {
            let r = rel(p, actor);
            assert(r != 0);
            let v1 = kan_declared(kakan_meld(with_deltas(p, deltas), r, pai), pai);
            lemma_witness_only_seen(v1, pai);
        },
        Event::Ankan { actor, consumed, deltas } => {
            let r = rel(p, actor);
            assert(r != 0);
            let t = consumed[0];
            let v1 = kan_declared(add_ankan(with_deltas(p, deltas), r, t), t);
            lemma_witness_all_only_seen(v1, consumed@);
        },
        Event::DingQue { actor, suit } => {
            let v1 = named(p, actor, suit);
            assert(same_furiten(v1, p));
        },
        Event::Hora { actor, target, deltas } => {
            assert(rel(p, actor) != 0);
        },
        _ => {},
    }
}

/// After a discard or an added kan of another seat, a seat in temporary furiten is offered a
/// ron only with more fan than the best it passed (and never when it has passed none).
pub proof fn lemma_furiten_ron_needs_more_fan(v: PlayerView, ev: Event)
    requires
        wf(v),
        update_ok(v, ev),
        !v.last_cans.can_ron_agari,
        v.temporary_furiten,
        ev is Dahai || ev is Kakan,
        spec_actor(ev) matches Some(a) && a != v.player_id,
    ensures
        spec_update(v, ev).0.last_cans.can_ron_agari ==> {
            &&& spec_update(v, ev).0.current_ron_fan is Some
            &&& v.furiten_passed_ron_fan is Some
            &&& spec_update(v, ev).0.current_ron_fan->0 > v.furiten_passed_ron_fan->0
        },
{
    lemma_others_keep_furiten();
    reveal(prologue);
    reveal(ron_offer);
    reveal(ron_allowed);
    reveal(call_options);
    reveal(chankan_check);
    reveal(chankan_offer);
    reveal(to_kawa);
    let p = prologue(v, ev);
    assert(same_furiten(p, v));
    assert(!p.last_cans.can_ron_agari);
    match ev {
        Event::Dahai { actor, pai, tsumogiri } => {
            let r = rel(p, actor);
            assert(r != 0);
            lemma_witness_only_seen(p, pai);
            let v1 = witness(p, pai).0;
            if witness(p, pai).1 is Ok {
                let v2 = to_kawa(v1, r, pai, tsumogiri);
                assert(same_furiten(v2, v));
                if v2.has_agari {
                    assert(spec_update(v, ev).0 == v2);
                    assert(!v2.last_cans.can_ron_agari);
                } else {
                    let v3 = ron_offer(v2, pai);
                    let v4 = call_options(v3, pai);
                    assert(spec_update(v, ev).0 == v4);
                    assert(v4.last_cans.can_ron_agari == v3.last_cans.can_ron_agari);
                    assert(v4.current_ron_fan == v3.current_ron_fan);
                    assert(v3.last_cans.can_ron_agari ==> (v3.current_ron_fan is Some
                        && v.furiten_passed_ron_fan is Some && v3.current_ron_fan->0
                        > v.furiten_passed_ron_fan->0));
                }
            } else {
                assert(spec_update(v, ev).0 == v1);
            }
        },
        Event::Kakan { actor, pai, deltas, .. } => {
            let r = rel(p, actor);
            assert(r != 0);
            let v1 = kan_declared(kakan_meld(with_deltas(p, deltas), r, pai), pai);
            lemma_witness_only_seen(v1, pai);
            assert(same_furiten(v1, v));
            reveal(kakan_meld);
            assert(v1.last_cans == p.last_cans);
            if !v1.has_agari && witness(v1, pai).1 is Ok {
                let v2 = witness(v1, pai).0;
                let v3 = PlayerView { last_kawa_tile: Some(pai), ..v2 };
                assert(spec_update(v, ev).0 == chankan_offer(v3, actor, pai));
            }
        },
        _ => {},
    }
}

} // verus!
