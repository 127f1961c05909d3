use libblood::consts::INITIAL_SCORE;
use libblood::hand::{hand, tile27_to_vec};
use libblood::mjai::{Event, Suit};
use libblood::point::Point;
use libblood::state::agent_helper::AgariError;
use libblood::state::player_state::PlayerState;
use libblood::tile::Tile;

fn t(s: &str) -> Tile {
    s.parse().unwrap()
}

fn unknown13() -> [Tile; 13] {
    [t("?"); 13]
}

fn start(ps: &mut PlayerState, own: &str) {
    let tiles: [Tile; 13] = tile27_to_vec(&hand(own).unwrap()).try_into().unwrap();
    ps.update(&Event::StartKyoku {
        kyoku: 1,
        oya: 0,
        scores: [INITIAL_SCORE; 4],
        tehais: [tiles, unknown13(), unknown13(), unknown13()],
    })
    .unwrap();
}

/// The dealer draws `draw`, everybody names a void suit, the dealer last with `own_void`.
fn dealer_after_draw(own: &str, draw: &str, own_void: Suit) -> PlayerState {
    let mut ps = PlayerState::new(0);
    start(&mut ps, own);
    ps.update(&Event::Tsumo { actor: 0, pai: t(draw) }).unwrap();
    for actor in 1..4u8 {
        ps.update(&Event::DingQue { actor, suit: Suit::Man }).unwrap();
    }
    ps.update(&Event::DingQue { actor: 0, suit: own_void }).unwrap();
    ps
}

fn set_kinds(mask: [bool; 27]) -> Vec<usize> {
    (0..27).filter(|&i| mask[i]).collect()
}

#[test]
fn discard_candidates_only_void_suit_while_held() {
    let ps = dealer_after_draw("123m 456p 789s 1155m", "9m", Suit::Sou);
    assert!(ps.last_cans.can_discard);
    assert_eq!(set_kinds(ps.discard_candidates()), vec![24, 25, 26]);
}

#[test]
fn discard_candidates_any_held_without_void_tiles() {
    let ps = dealer_after_draw("123m 456m 789m 1155p", "9p", Suit::Sou);
    assert_eq!(set_kinds(ps.discard_candidates()), vec![0, 1, 2, 3, 4, 5, 6, 7, 8, 9, 13, 17]);
}

#[test]
fn discard_candidates_fall_back_when_void_tiles_forbidden() {
    let mut ps = dealer_after_draw("123m 456p 789s 1155m", "9m", Suit::Sou);
    for i in 24..27 {
        ps.forbidden_tiles[i] = true;
    }
    for i in 0..24 {
        ps.forbidden_tiles[i] = false;
    }
    ps.forbidden_tiles[0] = true;
    assert_eq!(set_kinds(ps.discard_candidates()), vec![1, 2, 4, 8, 12, 13, 14]);
    for i in 0..27 {
        ps.forbidden_tiles[i] = true;
    }
    assert_eq!(set_kinds(ps.discard_candidates()), vec![0, 1, 2, 4, 8, 12, 13, 14, 24, 25, 26]);
}

#[test]
fn terminal_kinds_are_counted_once_each() {
    let mut ps = PlayerState::new(0);
    start(&mut ps, "123m 456p 789s 1155m");
    assert_eq!(ps.yaokyuu_kind_count(), 2);
    ps.update(&Event::Tsumo { actor: 0, pai: t("9m") }).unwrap();
    assert_eq!(ps.yaokyuu_kind_count(), 3);
    assert_eq!(ps.kans_count(), 0);
    assert!(!ps.rule_based_ryukyoku());
    assert_eq!(ps.rule_based_agari(), ps.last_cans.can_agari());
}

#[test]
fn tenpai_after_draw_keeps_only_the_drawn_tile() {
    let ps = dealer_after_draw("123m 456m 789m 1155p", "9p", Suit::Sou);
    assert_eq!(ps.shanten, 0);
    assert_eq!(ps.real_time_shanten(), 0);
    assert_eq!(set_kinds(ps.discard_candidates_with_unconditional_tenpai()), vec![17]);
}

#[test]
fn drawn_winning_tile_leaves_no_tenpai_discard() {
    let mut ps = dealer_after_draw("123m 456m 789m 1155p", "9p", Suit::Sou);
    ps.update(&Event::Dahai { actor: 0, pai: t("9p"), tsumogiri: true }).unwrap();
    assert!(ps.waits[9] && ps.waits[13]);
    ps.update(&Event::Tsumo { actor: 0, pai: t("1p") }).unwrap();
    assert_eq!(ps.real_time_shanten(), -1);
    assert!(ps.discard_candidates_with_unconditional_tenpai().iter().all(|&b| !b));
    assert!(ps.rule_based_agari());
}

#[test]
fn waiting_hand_reports_stored_shanten() {
    let mut ps = PlayerState::new(0);
    start(&mut ps, "123m 456p 789s 1155m");
    assert!(!ps.last_cans.can_discard);
    assert_eq!(ps.real_time_shanten(), ps.shanten);
}

fn ron_on_4m() -> PlayerState {
    let mut ps = PlayerState::new(0);
    start(&mut ps, "11m 23m 123p 123s 789s");
    ps.update(&Event::Dahai { actor: 1, pai: t("4m"), tsumogiri: false }).unwrap();
    assert!(ps.last_cans.can_ron_agari);
    ps
}

#[test]
fn ron_points_for_two_fan() {
    let ps = ron_on_4m();
    assert_eq!(ps.agari_points(true, false, false, false, &[]), Ok(Point::calc_from_fan(2)));
    assert_eq!(ps.agari_points(true, false, false, false, &[]), Ok(Point { ron: 2000, tsumo_ko: 2000 }));
    assert_eq!(ps.agari_points_exclude_gen(true, 0, false, &[]), Ok(Point { ron: 2000, tsumo_ko: 2000 }));
}

#[test]
fn heavenly_win_flag_gives_the_cap() {
    let ps = ron_on_4m();
    assert_eq!(ps.agari_points(true, false, true, false, &[]), Ok(Point { ron: 16000, tsumo_ko: 16000 }));
}

#[test]
fn tsumo_points_refused_without_a_tsumo_win() {
    let ps = ron_on_4m();
    assert_eq!(
        ps.agari_points(false, false, false, false, &[]),
        Err(AgariError::CannotAgari { is_ron: false, can_ron: true, can_tsumo: false })
    );
    assert_eq!(
        ps.agari_points_exclude_gen(false, 0, false, &[]),
        Err(AgariError::CannotAgari { is_ron: false, can_ron: true, can_tsumo: false })
    );
}

#[test]
fn missing_winning_tile_is_an_error() {
    let mut ps = ron_on_4m();
    ps.last_cans.can_tsumo_agari = true;
    ps.last_self_tsumo = None;
    assert_eq!(ps.agari_points(false, false, false, false, &[]), Err(AgariError::NoWinningTile));
}

#[test]
fn wrong_tile_total_is_an_error() {
    let mut ps = ron_on_4m();
    ps.tehai = hand("11m 23m 123p 123s").unwrap();
    assert_eq!(
        ps.agari_points_exclude_gen(true, 0, false, &[]),
        Err(AgariError::TehaiTotal { expected: 14, fuuro_count: 0, got: 11, is_ron: true })
    );
}

#[test]
fn non_winning_hand_is_not_hora() {
    let mut ps = ron_on_4m();
    ps.tehai = hand("11m 26m 123p 123s 789s").unwrap();
    assert_eq!(ps.agari_points(true, false, false, false, &[]), Err(AgariError::NotHora));
    assert_eq!(ps.agari_points_exclude_gen(true, 0, false, &[]), Err(AgariError::NotHora));
}

#[test]
fn partial_global_tiles_seen_counts_discards_and_melds_once() {
    let mut ps = PlayerState::new(0);
    start(&mut ps, "123m 456p 789s 1155m");
    let events = [
        Event::DingQue { actor: 0, suit: Suit::Sou },
        Event::Dahai { actor: 3, pai: t("5m"), tsumogiri: false },
        Event::Pon { actor: 0, target: 3, pai: t("5m"), consumed: [t("5m"), t("5m")] },
        Event::Dahai { actor: 0, pai: t("9s"), tsumogiri: false },
        Event::Dahai { actor: 1, pai: t("2p"), tsumogiri: false },
        Event::Tsumo { actor: 0, pai: t("1m") },
    ];
    for ev in events.iter() {
        ps.update(ev).unwrap();
    }
    let mut expected = [0u8; 27];
    for (k, n) in [(0, 4), (1, 1), (2, 1), (4, 3), (10, 1), (12, 1), (13, 1), (14, 1), (24, 1), (25, 1), (26, 1)] {
        expected[k] = n;
    }
    assert_eq!(ps.compute_partial_global_tiles_seen(), expected);
    ps.update(&Event::Ankan { actor: 2, consumed: [t("3p"); 4], deltas: None }).unwrap();
    expected[11] = 4;
    assert_eq!(ps.compute_partial_global_tiles_seen(), expected);
}
