use libblood::consts::{obs_shape, oracle_obs_shape, ACTION_SPACE, INITIAL_SCORE, TOTAL_SCORE, VERSION};
use libblood::hand::hand;
use libblood::mjai::{Event, Suit};
use libblood::tile::Tile;
use libblood::tsumogiri::{Tsumogiri, TsumogiriError};

#[test]
fn constants() {
    assert_eq!(VERSION, 4);
    assert_eq!(TOTAL_SCORE, 4 * INITIAL_SCORE);
    assert_eq!(ACTION_SPACE, 34);
    assert_eq!(obs_shape(4), (423, 27));
    assert_eq!(oracle_obs_shape(4), (121, 27));
}

#[test]
fn tsumogiri_agents() {
    let agents = Tsumogiri::new_batched(&[2, 0]);
    assert_eq!(agents.len(), 2);
    assert_eq!(agents[0].0, 2);
    assert_eq!(agents[1].0, 0);
    assert_eq!(agents[0].name(), "tsumogiri");
}

#[test]
fn tsumogiri_names_fewest_suit() {
    let me = Tsumogiri(1);
    let tehai = hand("123456m 1p 12345s").unwrap();
    match me.react(true, false, &tehai, None) {
        Ok(Event::DingQue { actor, suit }) => {
            assert_eq!(actor, 1);
            assert_eq!(suit, Suit::Pin);
        }
        other => panic!("unexpected {:?}", other),
    }
    // A tie goes to the earliest suit.
    let tehai = hand("12m 34p 56s").unwrap();
    match me.react(true, true, &tehai, None) {
        Ok(Event::DingQue { suit, .. }) => assert_eq!(suit, Suit::Man),
        other => panic!("unexpected {:?}", other),
    }
}

#[test]
fn tsumogiri_discards_drawn_tile() {
    let me = Tsumogiri(3);
    let tehai = hand("123m").unwrap();
    let drawn: Tile = "7p".parse().unwrap();
    match me.react(false, true, &tehai, Some(drawn)) {
        Ok(Event::Dahai { actor, pai, tsumogiri }) => {
            assert_eq!(actor, 3);
            assert_eq!(pai, drawn);
            assert!(tsumogiri);
        }
        other => panic!("unexpected {:?}", other),
    }
    assert_eq!(me.react(false, true, &tehai, None).unwrap_err(), TsumogiriError::NoTsumo);
    assert!(matches!(me.react(false, false, &tehai, None), Ok(Event::Empty)));
}
