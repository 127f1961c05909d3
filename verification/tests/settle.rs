use libblood::agari::FanConfig;
use libblood::hand::hand;
use libblood::point::Point;
use libblood::settle::{
    draw_inputs, hora_reactions, max_ron_points, pick_reaction, rank_of_reaction, ryukyoku_deltas, DrawTurn,
    GangRecord, ScoreState,
};
use libblood::mjai::{Event, Suit};
use libblood::state::player_state::PlayerState;
use libblood::tile::Tile;

fn draw_settlement(huazhu: [bool; 4], tenpai: [Option<i32>; 4]) -> [i32; 4] {
    let mut s = ScoreState::new();
    s.tiles_left = 0;
    assert_eq!(s.draw_turn(), DrawTurn::Exhausted);
    let d = s.exhaustive_ryukyoku(huazhu, tenpai);
    assert_eq!(d, s.kyoku_deltas);
    assert_eq!(d.iter().sum::<i32>(), 0);
    d
}

/// Four seats as a fresh table has them (empty hands, shanten 0), with these void suits.
fn seats_with(ding_que: [Suit; 4]) -> [PlayerState; 4] {
    let mut ps = four_seats();
    for i in 0..4 {
        ps[i].ding_que = Some(ding_que[i]);
    }
    ps
}

/// The exhaustive draw of a fresh hand with these seats, nobody having won.
fn settle_seats(ps: &[PlayerState; 4]) -> [i32; 4] {
    let (huazhu, tenpai) = draw_inputs(ps, [false; 4]);
    draw_settlement(huazhu, tenpai)
}

#[test]
fn test_exhaustive_ryukyoku_one_huazhu() {
    let mut ps = seats_with([Suit::Man, Suit::Pin, Suit::Sou, Suit::Man]);
    ps[0].tehai[0] = 1;
    ps[0].tehai[1] = 1;
    let deltas = settle_seats(&ps);
    assert_eq!(deltas[0], -48000);
    assert_eq!(deltas[1], 16000);
    assert_eq!(deltas[2], 16000);
    assert_eq!(deltas[3], 16000);
    assert_eq!(deltas.iter().sum::<i32>(), 0);
}

#[test]
fn test_exhaustive_ryukyoku_one_tenpai() {
    let mut ps = seats_with([Suit::Man, Suit::Pin, Suit::Sou, Suit::Man]);
    ps[0].shanten = 0;
    ps[1].shanten = 1;
    ps[2].shanten = 2;
    ps[3].shanten = 1;
    let deltas = settle_seats(&ps);
    assert_eq!(deltas[0], 3000);
    assert_eq!(deltas[1], -1000);
    assert_eq!(deltas[2], -1000);
    assert_eq!(deltas[3], -1000);
    assert_eq!(deltas.iter().sum::<i32>(), 0);
}

#[test]
fn test_exhaustive_ryukyoku_huazhu_and_tenpai() {
    let mut ps = seats_with([Suit::Man, Suit::Pin, Suit::Sou, Suit::Man]);
    ps[0].tehai[0] = 1;
    ps[1].shanten = 0;
    ps[2].shanten = 1;
    ps[3].shanten = 1;
    let deltas = settle_seats(&ps);
    assert_eq!(deltas[0], -48000);
    assert_eq!(deltas[1], 18000);
    assert_eq!(deltas[2], 15000);
    assert_eq!(deltas[3], 15000);
    assert_eq!(deltas.iter().sum::<i32>(), 0);
}

#[test]
fn test_exhaustive_ryukyoku_two_tenpai() {
    let mut ps = seats_with([Suit::Man, Suit::Pin, Suit::Sou, Suit::Man]);
    ps[0].shanten = 0;
    ps[1].shanten = 0;
    ps[2].shanten = 1;
    ps[3].shanten = 1;
    let deltas = settle_seats(&ps);
    assert_eq!(deltas[0], 2000);
    assert_eq!(deltas[1], 2000);
    assert_eq!(deltas[2], -2000);
    assert_eq!(deltas[3], -2000);
    assert_eq!(deltas.iter().sum::<i32>(), 0);
}

#[test]
fn test_exhaustive_ryukyoku_three_tenpai() {
    let mut ps = seats_with([Suit::Man, Suit::Pin, Suit::Sou, Suit::Man]);
    ps[0].shanten = 0;
    ps[1].shanten = 0;
    ps[2].shanten = 0;
    ps[3].shanten = 1;
    let deltas = settle_seats(&ps);
    assert_eq!(deltas[0], 1000);
    assert_eq!(deltas[1], 1000);
    assert_eq!(deltas[2], 1000);
    assert_eq!(deltas[3], -3000);
    assert_eq!(deltas.iter().sum::<i32>(), 0);
}

#[test]
fn test_exhaustive_ryukyoku_two_huazhu() {
    let mut ps = seats_with([Suit::Man, Suit::Pin, Suit::Sou, Suit::Man]);
    ps[0].tehai[0] = 1;
    ps[1].tehai[9] = 1;
    let deltas = settle_seats(&ps);
    assert_eq!(deltas[0], -32000);
    assert_eq!(deltas[1], -32000);
    assert_eq!(deltas[2], 32000);
    assert_eq!(deltas[3], 32000);
    assert_eq!(deltas.iter().sum::<i32>(), 0);
}

#[test]
fn all_huazhu_pay_nothing() {
    let d = draw_settlement([true; 4], [None; 4]);
    assert_eq!(d, [0, 0, 0, 0]);
}

#[test]
fn noten_refunds_kan_income() {
    // Seat 1 made a concealed kan (everybody paid 2000) but ends not waiting: it pays back.
    let rec = GangRecord { actor: 1, deltas: [-2000, 6000, -2000, -2000], valid: true };
    let void = GangRecord { actor: 1, deltas: [-1000, 3000, -1000, -1000], valid: false };
    let d = ryukyoku_deltas([false; 4], [false; 4], [Some(1000), None, None, None], &[rec, void]);
    // 查大叫: seat 0 gets 1000 from each of 1, 2, 3; 退税: seat 1 returns 6000.
    assert_eq!(d, [3000 + 2000, -1000 - 6000, -1000 + 2000, -1000 + 2000]);
    // A waiting kan player keeps the income.
    let d = ryukyoku_deltas([false; 4], [false; 4], [None, Some(1000), None, None], &[rec]);
    assert_eq!(d, [-1000, 3000, -1000, -1000]);
}

#[test]
fn kan_payments() {
    let mut s = ScoreState::new();
    s.players_agari[3] = true;
    s.agari_count = 1;
    let d = s.ankan_payment(0);
    assert_eq!(d, [4000, -2000, -2000, 0]);
    let d = s.kakan_payment(1);
    assert_eq!(d, [-1000, 2000, -1000, 0]);
    let d = s.daiminkan_payment(2, 0);
    assert_eq!(d, [-2000, 0, 2000, 0]);
    assert_eq!(s.kans, 3);
    assert_eq!(s.gang_history.len(), 3);
    assert_eq!(s.kyoku_deltas, [1000, 0, -1000, 0]);
    assert_eq!(s.last_kan_actor, Some(2));
    assert_eq!(s.last_kan_revenue, 2000);
    s.on_pon(1);
    assert_eq!(s.last_kan_actor, None);
    assert_eq!(s.tsumo_actor, 1);
}

#[test]
fn ron_and_tsumo_payments() {
    let mut s = ScoreState::new();
    let pt = Point::calc_from_fan(2);
    let d = s.handle_hora(2, 0, pt, false, false);
    assert_eq!(d, [-2000, 0, 2000, 0]);
    assert_eq!(s.agari_order, vec![2]);
    assert_eq!(s.agari_count, 1);
    // A tsumo is paid by the players still in the hand.
    let d = s.handle_hora(1, 1, Point::calc_from_fan(3), false, false);
    assert_eq!(d, [-4000, 8000, 0, -4000]);
    assert_eq!(s.kyoku_deltas, [-6000, 8000, 2000, -4000]);
    assert_eq!(s.agari_order, vec![2, 1]);
}

#[test]
fn kan_revenue_passes_to_ron_winner() {
    let mut s = ScoreState::new();
    s.ankan_payment(0); // 0 gets 6000
    let d = s.handle_hora(1, 0, Point::calc_from_fan(1), false, false);
    assert_eq!(d, [-1000 - 6000, 1000 + 6000, 0, 0]);
    assert_eq!(s.last_kan_actor, None);
    assert!(!s.gang_history[0].valid);
    // The voided record is not refunded again at the draw.
    let r = ryukyoku_deltas(s.players_agari, [false; 4], [None; 4], &s.gang_history);
    assert_eq!(r, [0, 0, 0, 0]);
}

#[test]
fn kan_revenue_goes_back_on_multi_ron() {
    let mut s = ScoreState::new();
    s.kakan_payment(0); // 0 gets 3000
    let d = s.handle_hora(1, 0, Point::calc_from_fan(1), false, true);
    assert_eq!(d, [-1000 - 3000, 1000 + 1000, 1000, 1000]);
    let d = s.handle_hora(2, 0, Point::calc_from_fan(1), false, true);
    assert_eq!(d, [-1000, 0, 1000, 0]);
}

#[test]
fn chankan_voids_the_robbed_kan() {
    let mut s = ScoreState::new();
    s.kakan_payment(3); // 3 gets 3000
    let d = s.handle_hora(0, 3, Point::calc_from_fan(2), true, false);
    assert_eq!(d, [2000 + 1000, 1000, 1000, -2000 - 3000]);
    assert_eq!(s.kans, 0);
    assert_eq!(s.tsumo_actor, 0);
    assert!(!s.gang_history[0].valid);
}

#[test]
fn turn_order_skips_winners() {
    let mut s = ScoreState::new();
    s.handle_hora(1, 0, Point::calc_from_fan(1), false, false);
    assert!(s.on_dahai(0));
    assert_eq!(s.tsumo_actor, 2);
    assert_eq!(s.dahai_count, 1);
    s.tsumo_actor = 1;
    assert_eq!(s.draw_turn(), DrawTurn::Drawn(2));
    assert_eq!(s.tiles_left, 55);
    // Winners 1 and 3 on seat 0's discard: play resumes after the furthest, seat 3 -> seat 0.
    let mut t = ScoreState::new();
    t.handle_hora(1, 0, Point::calc_from_fan(1), false, true);
    t.handle_hora(3, 0, Point::calc_from_fan(1), false, true);
    assert!(t.after_hora(&[1, 3], 0, true));
    assert_eq!(t.tsumo_actor, 0);
}

#[test]
fn win_flags_of_first_turn() {
    let s = ScoreState::new();
    assert_eq!(s.win_flags(0, 0, 0, false), (false, true, false));
    let mut t = ScoreState::new();
    t.on_dahai(0);
    assert_eq!(t.win_flags(2, 0, 0, true), (true, false, true));
}

#[test]
fn tenpai_value_is_best_ron() {
    // 123m 456p 789s 11s 2s waits on 2s (pair) ... with 13 tiles.
    let t = hand("123456m 789p 11s 23s").unwrap();
    // Waits 1s (123s + 11s) and 4s (234s... no, 23s+4s run with 11s pair).
    let v = max_ron_points(&t, &[], &[], &[], None, FanConfig::default());
    assert_eq!(v, 2000);
    let t = hand("147m 258p 369s 1m").unwrap();
    assert_eq!(max_ron_points(&t, &[], &[], &[], None, FanConfig::default()), 0);
}

#[test]
fn board_takes_wins_then_calls_then_actions_then_passes() {
    let five: Tile = "5m".parse().unwrap();
    let pon = Event::Pon { actor: 1, target: 0, pai: five, consumed: [five, five] };
    let hora = Event::Hora { actor: 3, target: 0, deltas: None };
    let reactions = [Event::Empty, pon.clone(), Event::Empty, hora.clone()];
    assert_eq!(pick_reaction(&reactions, [false; 4]), Some(3));
    assert_eq!(hora_reactions(&reactions, [false; 4]), vec![3u8]);
    assert_eq!(pick_reaction(&reactions, [false, false, false, true]), Some(1));
    assert!(hora_reactions(&reactions, [false, false, false, true]).is_empty());
    let passes = [Event::Empty, Event::Empty, Event::Empty, Event::Empty];
    assert_eq!(pick_reaction(&passes, [true, false, false, false]), Some(1));
    assert_eq!(pick_reaction(&passes, [true; 4]), None);
    let two_wins = [hora.clone(), Event::Empty, Event::Hora { actor: 2, target: 0, deltas: None }, hora];
    assert_eq!(hora_reactions(&two_wins, [true, false, false, false]), vec![2u8, 3u8]);
    assert_eq!(rank_of_reaction(&Event::Dahai { actor: 0, pai: five, tsumogiri: false }), 2);
}

fn four_seats() -> [PlayerState; 4] {
    [PlayerState::new(0), PlayerState::new(1), PlayerState::new(2), PlayerState::new(3)]
}

#[test]
fn draw_inputs_value_a_waiting_seat() {
    let mut ps = four_seats();
    ps[0].tehai = hand("123456789m 1123p").unwrap();
    ps[0].ding_que = Some(Suit::Sou);
    ps[0].shanten = 0;
    ps[1].ding_que = Some(Suit::Pin);
    ps[1].shanten = 1;
    ps[2].ding_que = Some(Suit::Sou);
    ps[2].shanten = 2;
    ps[3].ding_que = Some(Suit::Man);
    ps[3].shanten = 1;
    let (huazhu, tenpai) = draw_inputs(&ps, [false; 4]);
    assert_eq!(huazhu, [false; 4]);
    let best = max_ron_points(&ps[0].tehai, &[], &[], &[], Some(Suit::Sou), ps[0].fan_config);
    assert!(best >= 1000);
    let v = best;
    assert_eq!(tenpai, [Some(v), None, None, None]);
    let d = draw_settlement(huazhu, tenpai);
    assert_eq!(d, [3 * v, -v, -v, -v]);
    // A seat that has won is not valued, and one holding its void suit is a 花猪.
    let (huazhu, tenpai) = draw_inputs(&ps, [true, false, false, false]);
    assert_eq!(huazhu, [false; 4]);
    assert_eq!(tenpai, [None; 4]);
    ps[0].ding_que = Some(Suit::Man);
    let (huazhu, tenpai) = draw_inputs(&ps, [false; 4]);
    assert_eq!(huazhu, [true, false, false, false]);
    assert_eq!(tenpai, [None; 4]);
}

#[test]
fn a_winner_loses_nothing_at_the_draw() {
    let mut s = ScoreState::new();
    s.tiles_left = 0;
    s.players_agari = [false, true, false, false];
    s.gang_history.push(GangRecord { actor: 2, deltas: [-2000, -2000, 6000, -2000], valid: true });
    let d = s.exhaustive_ryukyoku([false; 4], [Some(1000), None, None, None]);
    assert_eq!(d, [4000, 2000, -7000, 1000]);
    assert!(d[1] >= 0);
    assert_eq!(d.iter().sum::<i32>(), 0);
}
