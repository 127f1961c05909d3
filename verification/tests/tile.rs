use libblood::tile::Tile;

const NAMES: [&str; 27] = [
    "1m", "2m", "3m", "4m", "5m", "6m", "7m", "8m", "9m", //
    "1p", "2p", "3p", "4p", "5p", "6p", "7p", "8p", "9p", //
    "1s", "2s", "3s", "4s", "5s", "6s", "7s", "8s", "9s",
];

#[test]
fn convert() {
    "1m".parse::<Tile>().unwrap();
    "9s".parse::<Tile>().unwrap();
    "?".parse::<Tile>().unwrap();
    Tile::try_from(0_u8).unwrap();
    Tile::try_from(26_u8).unwrap();
    Tile::try_from(27_u8).unwrap();

    "".parse::<Tile>().unwrap_err();
    "0s".parse::<Tile>().unwrap_err();
    "!".parse::<Tile>().unwrap_err();
    Tile::try_from(28_u8).unwrap_err();
    Tile::try_from(u8::MAX).unwrap_err();
}

#[test]
fn next_prev() {
    NAMES.iter().for_each(|&s| {
        let tile: Tile = s.parse().unwrap();
        assert_eq!(tile.prev().next(), tile.deaka());
        assert_eq!(tile.next().prev(), tile.deaka());
    });
}

#[test]
fn names_round_trip() {
    for (id, &s) in NAMES.iter().enumerate() {
        let tile: Tile = s.parse().unwrap();
        assert_eq!(tile.as_usize(), id);
        assert_eq!(tile.to_string(), s);
    }
    assert_eq!(Tile::default().to_string(), "?");
    assert!(Tile::default().is_unknown());
}

#[test]
fn next_prev_wrap_within_suit() {
    let t9m: Tile = "9m".parse().unwrap();
    assert_eq!(t9m.next().to_string(), "1m");
    let t1p: Tile = "1p".parse().unwrap();
    assert_eq!(t1p.prev().to_string(), "9p");
    let unknown = Tile::default();
    assert_eq!(unknown.next(), unknown);
    assert_eq!(unknown.prev(), unknown);
}

#[test]
fn augment_swaps_man_and_pin() {
    let t3m: Tile = "3m".parse().unwrap();
    assert_eq!(t3m.augment().to_string(), "3p");
    assert_eq!(t3m.augment().augment(), t3m);
    let t7s: Tile = "7s".parse().unwrap();
    assert_eq!(t7s.augment(), t7s);
}

#[test]
fn yaokyuu_and_priority() {
    let t1m: Tile = "1m".parse().unwrap();
    let t5m: Tile = "5m".parse().unwrap();
    let t9s: Tile = "9s".parse().unwrap();
    assert!(t1m.is_yaokyuu());
    assert!(t9s.is_yaokyuu());
    assert!(!t5m.is_yaokyuu());
    assert_eq!(t1m.cmp_discard_priority(t5m), std::cmp::Ordering::Greater);
    assert_eq!(t5m.cmp_discard_priority(t1m), std::cmp::Ordering::Less);
    assert_eq!(t5m.cmp_discard_priority(t5m), std::cmp::Ordering::Equal);
    assert!(!t1m.is_aka());
    assert!(!t1m.is_jihai());
}

#[test]
fn invalid_tile_errors() {
    assert!(Tile::try_from(28_usize).is_err());
    assert!(Tile::try_from(27_usize).is_ok());
    assert!("10m".parse::<Tile>().is_err());
    assert!(" 1m".parse::<Tile>().is_err());
}
