use libblood::grp::{count_improvement_kinds, ding_que_factors, tiles_to_tehai, DingQueFactors};
use libblood::mjai::Suit;
use libblood::tile::Tile;

fn sample_hand() -> [u8; 27] {
    let mut tehai = [0u8; 27];
    tehai[0] = 3; // 111m
    tehai[9] = 1;
    tehai[10] = 1;
    tehai[11] = 1; // 123p
    tehai[18] = 1;
    tehai[20] = 1;
    tehai[22] = 1; // 135s
    tehai[15] = 2; // 77p
    tehai[25] = 2; // 88s
    tehai
}

#[test]
fn factors_of_a_triplet_suit() {
    let f = ding_que_factors(&sample_hand(), Suit::Man).unwrap();
    assert_eq!(
        f,
        DingQueFactors {
            removed_count: 3,
            removed_triplets: 1,
            removed_pairs: 0,
            removed_sequences: 0,
            taatsu_count: 0,
            shanten: 1,
            remaining_triplets: 0,
            remaining_pairs_or_more: 2,
            improvement_kinds: 4,
        }
    );
}

#[test]
fn factors_of_a_run_suit() {
    let f = ding_que_factors(&sample_hand(), Suit::Pin).unwrap();
    assert_eq!(f.removed_count, 5);
    assert_eq!(f.removed_sequences, 1);
    assert_eq!(f.removed_pairs, 1);
    // 12, 23 and 13 are the run itself: nothing is left over.
    assert_eq!(f.taatsu_count, 0);
    let f = ding_que_factors(&sample_hand(), Suit::Sou).unwrap();
    // 13 and 35 are one-gap pairs; no run.
    assert_eq!(f.removed_sequences, 0);
    assert_eq!(f.taatsu_count, 2);
}

#[test]
fn empty_suit_has_no_factors() {
    let mut tehai = sample_hand();
    for i in 0..9 {
        tehai[i] = 0;
    }
    assert_eq!(ding_que_factors(&tehai, Suit::Man), None);
}

#[test]
fn improvement_kinds_skip_voided_suit() {
    // 11m 23p: drawing 1p or 4p makes a run; 1m makes a triplet-less pair already held.
    let mut t = [0u8; 27];
    t[10] = 1;
    t[11] = 1;
    t[13] = 2;
    let all = count_improvement_kinds(&t, 4, 0, (0, 0));
    let without_pin = count_improvement_kinds(&t, 4, 0, (9, 18));
    assert_eq!(without_pin, 0);
    assert!(all >= 2);
}

#[test]
fn thirteen_tiles_to_counts() {
    let names = ["1m", "1m", "2p", "3p", "4p", "9s", "9s", "9s", "5m", "5m", "6m", "7m", "?"];
    let tiles: Vec<Tile> = names.iter().map(|s| s.parse().unwrap()).collect();
    let arr: [Tile; 13] = tiles.try_into().unwrap();
    let t = tiles_to_tehai(&arr);
    assert_eq!(t[0], 2);
    assert_eq!(t[4], 2);
    assert_eq!(t[26], 3);
    assert_eq!(t.iter().map(|&c| c as u32).sum::<u32>(), 12);
}
