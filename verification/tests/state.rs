use libblood::consts::INITIAL_SCORE;
use libblood::hand::{hand, tile27_to_vec};
use libblood::mjai::{Event, Suit};
use libblood::point::Point;
use libblood::state::action::{ActionCandidate, ReactionError};
use libblood::state::player_state::PlayerState;
use libblood::state::rules::StateError;
use libblood::tile::Tile;

fn t(s: &str) -> Tile {
    s.parse().unwrap()
}

fn unknown13() -> [Tile; 13] {
    [t("?"); 13]
}

fn start(ps: &mut PlayerState, own: &str) {
    let tiles: [Tile; 13] = tile27_to_vec(&hand(own).unwrap()).try_into().unwrap();
    ps.update(&Event::StartKyoku {
        kyoku: 1,
        oya: 0,
        scores: [INITIAL_SCORE; 4],
        tehais: [tiles, unknown13(), unknown13(), unknown13()],
    })
    .unwrap();
}

#[test]
fn test_stage2_completion_verification() {
    let mut ps = PlayerState::new(0);
    let _unused = ps.update(&Event::StartKyoku {
        kyoku: 1,
        oya: 0,
        scores: [INITIAL_SCORE; 4],
        tehais: [
            tile27_to_vec(&hand("123m 456p 789s 11m 22s").unwrap()).try_into().unwrap(),
            unknown13(),
            unknown13(),
            unknown13(),
        ],
    });
    let _unused = ps.update(&Event::Dahai { actor: 1, pai: t("2m"), tsumogiri: false });
    let _cans = ps.last_cans;
    let point_3fan = Point::calc_from_fan(3);
    assert_eq!(
        point_3fan.tsumo_total(3),
        Point::calc_from_fan(3).tsumo_total(3),
        "Oya should not affect tsumo_total"
    );
}

#[test]
fn test_temporary_furiten_when_other_player_hora_after_passed_ron() {
    let mut ps = PlayerState::new(0);
    let _unused = ps.update(&Event::StartKyoku {
        kyoku: 1,
        oya: 0,
        scores: [INITIAL_SCORE; 4],
        tehais: [
            tile27_to_vec(&hand("11m 23m 123p 123s 789s").unwrap()).try_into().unwrap(),
            unknown13(),
            unknown13(),
            unknown13(),
        ],
    });
    let _unused = ps.update(&Event::Dahai { actor: 1, pai: t("4m"), tsumogiri: false });
    assert!(ps.last_cans.can_ron_agari);
    assert!(!ps.temporary_furiten);
    let _unused = ps.update(&Event::Hora { actor: 2, target: 1, deltas: None });
    assert!(ps.temporary_furiten);
}

#[test]
fn test_guoshou_same_fan_still_blocked() {
    let mut ps = PlayerState::new(0);
    let _unused = ps.update(&Event::StartKyoku {
        kyoku: 1,
        oya: 0,
        scores: [INITIAL_SCORE; 4],
        tehais: [
            tile27_to_vec(&hand("11m 23m 123p 123s 789s").unwrap()).try_into().unwrap(),
            unknown13(),
            unknown13(),
            unknown13(),
        ],
    });
    let _unused = ps.update(&Event::Dahai { actor: 1, pai: t("4m"), tsumogiri: false });
    assert!(ps.last_cans.can_ron_agari);
    let _unused = ps.update(&Event::Empty);
    assert!(ps.temporary_furiten);
    let _unused = ps.update(&Event::Dahai { actor: 2, pai: t("4m"), tsumogiri: false });
    assert!(!ps.last_cans.can_ron_agari);
}

#[test]
fn test_guoshou_jiafan_can_ron() {
    let mut ps = PlayerState::new(0);
    let _unused = ps.update(&Event::StartKyoku {
        kyoku: 1,
        oya: 0,
        scores: [INITIAL_SCORE; 4],
        tehais: [
            tile27_to_vec(&hand("11m 23m 123p 123s 789s").unwrap()).try_into().unwrap(),
            unknown13(),
            unknown13(),
            unknown13(),
        ],
    });
    let _unused = ps.update(&Event::Dahai { actor: 1, pai: t("4m"), tsumogiri: false });
    assert!(ps.last_cans.can_ron_agari);
    let _unused = ps.update(&Event::Empty);
    assert!(ps.temporary_furiten);
    let _unused = ps.update(&Event::Ankan { actor: 2, consumed: [t("5p"); 4], deltas: None });
    let _unused = ps.update(&Event::Dahai { actor: 2, pai: t("4m"), tsumogiri: false });
    assert!(ps.last_cans.can_ron_agari);
}

#[test]
fn start_kyoku_deals_and_asks_for_void_suit() {
    let mut ps = PlayerState::new(1);
    let mine: [Tile; 13] = tile27_to_vec(&hand("123m 456p 789s 1155m").unwrap()).try_into().unwrap();
    let cans = ps
        .update(&Event::StartKyoku {
            kyoku: 2,
            oya: 0,
            scores: [1, 2, 3, 4],
            tehais: [unknown13(), mine, unknown13(), unknown13()],
        })
        .unwrap();
    assert!(cans.can_ding_que);
    assert!(!cans.can_discard);
    assert_eq!(ps.kyoku(), 1);
    assert!(!ps.is_oya());
    assert_eq!(ps.tehai(), hand("123m 456p 789s 1155m").unwrap());
    // 13 tiles: 1 shanten (123m 456p 789s + 11m 55m)... tenpai on 1m or 5m.
    assert_eq!(ps.shanten(), 0);
    assert_eq!(ps.player_id(), 1);
}

#[test]
fn fifth_copy_is_an_error() {
    let mut ps = PlayerState::new(0);
    start(&mut ps, "1111m 456p 789s 555m");
    let r = ps.update(&Event::Dahai { actor: 1, pai: t("1m"), tsumogiri: false });
    assert_eq!(r, Err(StateError::FifthTile(t("1m"))));
    let mut ps = PlayerState::new(0);
    start(&mut ps, "123m 456p 789s 1155m");
    let r = ps.update(&Event::Dahai { actor: 1, pai: t("?"), tsumogiri: false });
    assert_eq!(r, Err(StateError::UnknownTile));
}

#[test]
fn dealer_discards_after_all_void_suits() {
    let mut ps = PlayerState::new(0);
    start(&mut ps, "123m 456p 789s 1155m");
    let cans = ps.update(&Event::Tsumo { actor: 0, pai: t("9m") }).unwrap();
    assert!(cans.can_ding_que);
    assert!(!cans.can_discard);
    for actor in 1..4u8 {
        ps.update(&Event::DingQue { actor, suit: Suit::Man }).unwrap();
    }
    let cans = ps.update(&Event::DingQue { actor: 0, suit: Suit::Sou }).unwrap();
    assert!(cans.can_discard);
    assert!(!cans.can_ding_que);
    // The void suit (sou) is held, so every other tile is forbidden.
    assert!(ps.forbidden_tiles[0]);
    assert!(!ps.forbidden_tiles[24]);
    assert_eq!(ps.validate_reaction(&Event::Dahai { actor: 0, pai: t("7s"), tsumogiri: false }), Ok(()));
    assert_eq!(
        ps.validate_reaction(&Event::Dahai { actor: 0, pai: t("1m"), tsumogiri: false }),
        Err(ReactionError::ForbiddenTile)
    );
    assert_eq!(
        ps.validate_reaction(&Event::Dahai { actor: 0, pai: t("2s"), tsumogiri: false }),
        Err(ReactionError::NotEnoughTiles { tile_id: 19, need: 1, have: 0 })
    );
    let cans = ps.update(&Event::Dahai { actor: 0, pai: t("7s"), tsumogiri: false }).unwrap();
    assert!(!cans.can_discard);
    assert_eq!(ps.last_kawa_tile(), Some(t("7s")));
}

#[test]
fn pon_is_offered_and_recorded() {
    let mut ps = PlayerState::new(0);
    start(&mut ps, "123m 456p 789s 1155m");
    ps.update(&Event::DingQue { actor: 0, suit: Suit::Sou }).unwrap();
    let cans = ps.update(&Event::Dahai { actor: 3, pai: t("5m"), tsumogiri: false }).unwrap();
    assert!(cans.can_pon);
    assert!(!cans.can_daiminkan);
    assert!(cans.can_pass());
    assert_eq!(
        ps.validate_reaction(&Event::Pon { actor: 0, target: 3, pai: t("5m"), consumed: [t("5m"), t("5m")] }),
        Ok(())
    );
    assert_eq!(
        ps.validate_reaction(&Event::Pon { actor: 0, target: 2, pai: t("5m"), consumed: [t("5m"), t("5m")] }),
        Err(ReactionError::TargetMismatch)
    );
    let cans = ps
        .update(&Event::Pon { actor: 0, target: 3, pai: t("5m"), consumed: [t("5m"), t("5m")] })
        .unwrap();
    assert!(cans.can_discard);
    assert_eq!(ps.pons(), &[4u8][..]);
    assert_eq!(ps.tehai()[4], 0);
}

#[test]
fn action_candidate_predicates() {
    let mut c = ActionCandidate::default();
    assert!(!c.can_act());
    assert!(!c.can_pass());
    c.can_kakan = true;
    assert!(c.can_kan());
    assert!(c.can_act());
    assert!(!c.can_pass());
    c.can_ron_agari = true;
    assert!(c.can_agari());
    assert!(c.can_pass());
}

#[test]
fn none_is_refused_when_an_action_is_required() {
    let mut ps = PlayerState::new(0);
    start(&mut ps, "123m 456p 789s 1155m");
    assert_eq!(ps.validate_reaction(&Event::Empty), Err(ReactionError::CannotPass));
    assert_eq!(ps.validate_reaction(&Event::DingQue { actor: 0, suit: Suit::Pin }), Ok(()));
    assert_eq!(
        ps.validate_reaction(&Event::DingQue { actor: 1, suit: Suit::Pin }),
        Err(ReactionError::ActorMismatch)
    );
}

#[test]
fn held_never_exceeds_seen_through_a_hand() {
    let mut ps = PlayerState::new(0);
    start(&mut ps, "123m 456p 789s 1155m");
    let events = [
        Event::DingQue { actor: 0, suit: Suit::Sou },
        Event::Dahai { actor: 3, pai: t("5m"), tsumogiri: false },
        Event::Pon { actor: 0, target: 3, pai: t("5m"), consumed: [t("5m"), t("5m")] },
        Event::Dahai { actor: 0, pai: t("9s"), tsumogiri: false },
        Event::Dahai { actor: 1, pai: t("2p"), tsumogiri: false },
        Event::Tsumo { actor: 0, pai: t("1m") },
    ];
    for ev in events.iter() {
        ps.update(ev).unwrap();
        for k in 0..27 {
            assert!(ps.tehai[k] <= ps.tiles_seen[k] && ps.tiles_seen[k] <= 4);
        }
    }
    assert_eq!(ps.tiles_seen[0], 4);
    assert_eq!(ps.tehai[0], 4);
}

#[test]
fn deal_with_a_fifth_copy_is_refused() {
    let mut ps = PlayerState::new(0);
    let tiles: [Tile; 13] = [
        t("1m"), t("1m"), t("1m"), t("1m"), t("1m"), t("2m"), t("3m"),
        t("4m"), t("5m"), t("6m"), t("7m"), t("8m"), t("9m"),
    ];
    let r = ps.update(&Event::StartKyoku {
        kyoku: 1,
        oya: 0,
        scores: [INITIAL_SCORE; 4],
        tehais: [tiles, unknown13(), unknown13(), unknown13()],
    });
    assert_eq!(r, Err(StateError::FifthTile(t("1m"))));
}
