use libblood::consts::{INITIAL_SCORE, TOTAL_SCORE};
use libblood::game_score::{load_events, LogError};
use libblood::mjai::{Event, Suit};
use libblood::tile::Tile;

fn t(s: &str) -> Tile {
    s.parse().unwrap()
}

#[test]
fn final_scores_include_kan_deltas() {
    let init: [i32; 4] = [INITIAL_SCORE; 4];
    let events = vec![
        Event::StartGame {
            names: ["A".to_string(), "B".to_string(), "C".to_string(), "D".to_string()],
            seed: Some((1, 2)),
        },
        Event::StartKyoku { kyoku: 1, oya: 0, scores: init, tehais: [[t("1m"); 13]; 4] },
        // Ankan: instant payment (+6000 to actor, -2000 each from others)
        Event::Ankan {
            actor: 0,
            consumed: [t("9m"), t("9m"), t("9m"), t("9m")],
            deltas: Some([6000, -2000, -2000, -2000]),
        },
        // End by ryukyoku with 0 deltas (keeps only kan deltas)
        Event::Ryukyoku { deltas: Some([0, 0, 0, 0]) },
        Event::EndKyoku,
        Event::EndGame,
    ];

    let gs = load_events(&events).unwrap();
    let history: Vec<[i32; 4]> = gs.kyokus.iter().map(|k| k.start_scores).collect();
    assert_eq!(history, vec![init]);
    assert_eq!(
        gs.final_scores,
        [INITIAL_SCORE + 6000, INITIAL_SCORE - 2000, INITIAL_SCORE - 2000, INITIAL_SCORE - 2000]
    );
    // rank_by_player is 0 for top, 3 for last
    assert_eq!(gs.rank_by_player[0], 0);
}

#[test]
fn log_errors() {
    let init: [i32; 4] = [INITIAL_SCORE; 4];
    let no_start = vec![Event::Ryukyoku { deltas: Some([0; 4]) }];
    assert_eq!(load_events(&no_start).unwrap_err(), LogError::NoScoringEvent);
    let missing = vec![
        Event::StartKyoku { kyoku: 1, oya: 0, scores: init, tehais: [[t("1m"); 13]; 4] },
        Event::Hora { actor: 1, target: 0, deltas: None },
    ];
    assert_eq!(load_events(&missing).unwrap_err(), LogError::MissingDeltas);
    // Missing deltas before the last hand start do not matter.
    let earlier = vec![
        Event::StartKyoku { kyoku: 1, oya: 0, scores: init, tehais: [[t("1m"); 13]; 4] },
        Event::Hora { actor: 1, target: 0, deltas: None },
        Event::StartKyoku { kyoku: 2, oya: 1, scores: init, tehais: [[t("1m"); 13]; 4] },
    ];
    let gs = load_events(&earlier).unwrap();
    assert_eq!(gs.final_scores, init);
    assert_eq!(gs.kyokus.len(), 2);
    assert_eq!(gs.kyokus[0].agari_count, [0, 1, 0, 0]);
    assert_eq!(gs.kyokus[0].houjuu_count, [1, 0, 0, 0]);
}

#[test]
fn ties_go_to_the_earlier_winner_and_total_is_kept() {
    let init: [i32; 4] = [INITIAL_SCORE; 4];
    let events = vec![
        Event::StartKyoku { kyoku: 1, oya: 0, scores: init, tehais: [[t("1m"); 13]; 4] },
        Event::Hora { actor: 2, target: 0, deltas: Some([-1000, 0, 1000, 0]) },
        Event::Hora { actor: 1, target: 0, deltas: Some([-1000, 1000, 0, 0]) },
        Event::Ryukyoku { deltas: Some([0, 0, 0, 100]) },
    ];
    let gs = load_events(&events).unwrap();
    // Seats 1 and 2 tie; seat 2 won first. The 100 extra points leave the top player.
    assert_eq!(gs.rank_by_player, [3, 1, 0, 2]);
    assert_eq!(gs.final_scores, [INITIAL_SCORE - 2000, INITIAL_SCORE + 1000, INITIAL_SCORE + 1000 - 100, INITIAL_SCORE + 100]);
    assert_eq!(gs.final_scores.iter().sum::<i32>(), TOTAL_SCORE);
}

#[test]
fn ding_que_hand_is_recorded() {
    let init: [i32; 4] = [INITIAL_SCORE; 4];
    let mut tehais = [[t("1m"); 13]; 4];
    tehais[0] = [
        t("1m"), t("2m"), t("3m"), t("4p"), t("5p"), t("6p"), t("7s"), t("8s"), t("9s"),
        t("1p"), t("1p"), t("2s"), t("2s"),
    ];
    let events = vec![
        Event::StartKyoku { kyoku: 1, oya: 0, scores: init, tehais },
        Event::Tsumo { actor: 0, pai: t("9m") },
        Event::DingQue { actor: 0, suit: Suit::Man },
        Event::Tsumo { actor: 1, pai: t("9m") },
        Event::Ryukyoku { deltas: Some([0; 4]) },
    ];
    let gs = load_events(&events).unwrap();
    let choice = gs.kyokus[0].ding_que[0].unwrap();
    assert_eq!(choice.suit, Suit::Man);
    assert_eq!(choice.tehai[8], 1);
    assert_eq!(choice.tehai[9], 2);
    assert_eq!(choice.tehai.iter().map(|&c| c as u32).sum::<u32>(), 14);
    assert!(gs.kyokus[0].ding_que[1].is_none());
}
