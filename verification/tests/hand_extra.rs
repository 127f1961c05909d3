use libblood::hand::{hand, tehai_to_strings, tile27_to_vec, tiles_to_string, HandError};

#[test]
fn hand_errors() {
    assert_eq!(hand("123m 5z"), Err(HandError::HonorSuit));
    assert_eq!(hand("105m"), Err(HandError::RedFive));
    assert_eq!(hand("12x"), Err(HandError::UnexpectedByte(b'x')));
    assert_eq!(hand("123m 45"), Err(HandError::TrailingDigits));
    assert_eq!(hand("11111m"), Err(HandError::CountExceeds4));
    assert_eq!(hand("1m\u{4e07}"), Err(HandError::NonAscii));
    // The first refused byte decides, before any count is checked.
    assert_eq!(hand("11111m z"), Err(HandError::HonorSuit));
}

#[test]
fn hand_blanks_and_empty() {
    assert_eq!(hand("").unwrap(), [0u8; 27]);
    let a = hand("1m\t2m\n3m").unwrap();
    let b = hand("123m").unwrap();
    assert_eq!(a, b);
}

#[test]
fn hand_round_trip() {
    let s = "33567m 345678p 678s";
    assert_eq!(tiles_to_string(&hand(s).unwrap()), s);
    assert_eq!(tiles_to_string(&[0u8; 27]), "");
    assert_eq!(tiles_to_string(&hand("9s").unwrap()), "9s");
}

#[test]
fn tiles_in_order() {
    let t = hand("2m 11p 9s").unwrap();
    let v = tile27_to_vec(&t);
    let ids: Vec<usize> = v.iter().map(|x| x.as_usize()).collect();
    assert_eq!(ids, vec![1, 9, 9, 26]);
    assert_eq!(tehai_to_strings(&t), vec!["2m", "1p", "1p", "9s"]);
}

#[test]
fn printed_hand_parses_back() {
    let tiles: [u8; 27] = [
        0, 0, 2, 0, 1, 1, 1, 0, 0, // m
        0, 0, 1, 1, 1, 1, 1, 1, 0, // p
        4, 0, 0, 0, 0, 1, 1, 1, 3, // s
    ];
    assert_eq!(hand(&tiles_to_string(&tiles)), Ok(tiles));
    assert_eq!(hand(&tiles_to_string(&[0u8; 27])), Ok([0u8; 27]));
}
