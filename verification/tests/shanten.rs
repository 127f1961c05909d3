use libblood::hand::hand;
use libblood::shanten::{calc_all, calc_chitoi, calc_kokushi, calc_normal};
use libblood::division::divisions;

#[test]
fn shanten_of_short_hands() {
    assert_eq!(calc_all(&hand("147m 258p 369s").unwrap(), 4), 6);
    assert_eq!(calc_all(&hand("468m 33346p 7s").unwrap(), 3), 2);
    assert_eq!(calc_all(&hand("147m 258p 3s").unwrap(), 2), 4);
    assert_eq!(calc_all(&hand("4455s").unwrap(), 1), 0);
    assert_eq!(calc_all(&hand("34778p").unwrap(), 1), 0);
    assert_eq!(calc_all(&hand("34s").unwrap(), 0), 0);
    assert_eq!(calc_all(&hand("55m").unwrap(), 0), -1);
}

#[test]
fn shanten_of_full_hands() {
    assert_eq!(calc_all(&hand("2344456m 14p 127s 7p").unwrap(), 4), 3);
    assert_eq!(calc_all(&hand("2344456m 14p 127s 5p").unwrap(), 4), 2);
    assert_eq!(calc_all(&hand("344455667p 1139s 9m").unwrap(), 4), 2);
    assert_eq!(calc_all(&hand("344455667p 1139s 9p").unwrap(), 4), 1);
    assert_eq!(calc_all(&hand("12223456m 78889p 2m").unwrap(), 4), -1);
}

#[test]
fn seven_pairs_lowers_full_hand_shanten() {
    // Six pairs and a single: one tile from seven pairs.
    let t = hand("11335577m 2244p 6s").unwrap();
    assert_eq!(calc_chitoi(&t), 0);
    assert!(calc_normal(&t, 4) > 0);
    assert_eq!(calc_all(&t, 4), 0);
    // With fewer than four melds to aim at, seven pairs does not count.
    let t = hand("1133m 55p").unwrap();
    assert_eq!(calc_all(&t, 1), calc_normal(&t, 1));
}

#[test]
fn kokushi_is_unreachable() {
    let t = hand("19m 19p 19s").unwrap();
    assert_eq!(calc_kokushi(&t), i8::MAX);
}

#[test]
fn complete_hands_are_minus_one() {
    assert_eq!(calc_normal(&hand("123456m 789p 345s 22m").unwrap(), 4), -1);
    assert_eq!(calc_all(&hand("11223344556677m").unwrap(), 4), -1);
}

#[test]
fn shanten_is_minus_one_exactly_for_divisible_hands() {
    let complete = hand("123m 456p 789s 11m 222s").unwrap();
    assert_eq!(calc_normal(&complete, 4), -1);
    assert!(!divisions(&complete).is_empty());
    let incomplete = hand("123m 456p 789s 11m 235s").unwrap();
    assert!(calc_normal(&incomplete, 4) >= 0);
    assert!(divisions(&incomplete).is_empty());
}

#[test]
fn short_hands_lack_at_least_their_missing_tiles() {
    // Four melds and a pair take 14 tiles; a hand of n tiles lacks at least 14 - n.
    for (s, m) in [
        ("1111m 333p 222s", 4u8),
        ("15559m 19p 19s", 4),
        ("9999m 6677p 88s", 4),
        ("19m 19p 159s", 4),
        ("122334m 678p 37s 5s", 4),
        ("122334m 678p 12s 4s", 4),
    ] {
        let t = hand(s).unwrap();
        let held: i32 = t.iter().map(|&c| c as i32).sum();
        assert!(calc_all(&t, m) as i32 >= 3 * m as i32 + 1 - held, "{s}");
        assert!(calc_normal(&t, m) as i32 >= 3 * m as i32 + 1 - held, "{s}");
    }
    // 111m 333p 222s and a lone 1m: a fourth meld and a pair still lack four tiles.
    assert_eq!(calc_all(&hand("1111m 333p 222s").unwrap(), 4), 3);
}
