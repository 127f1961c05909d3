use libblood::ding_que::{can_agari_with_fuuro, discard_allowed, has_ding_que_tiles_in_hand, TILE_KIND_COUNT};
use libblood::mjai::Suit;

#[test]
fn discard_rule_only_when_have() {
        let mut tehai = [0u8; TILE_KIND_COUNT];
        // Have 1m (ding_que Man) and 1p.
        tehai[0] = 1;
        tehai[9] = 1;
        assert!(discard_allowed(0, &tehai, Some(Suit::Man)));
        assert!(!discard_allowed(9, &tehai, Some(Suit::Man)));

        // After clearing Man tiles, anything is allowed.
        tehai[0] = 0;
        assert!(discard_allowed(9, &tehai, Some(Suit::Man)));
    }

#[test]
fn fuuro_ding_que_hand() {
        let mut tehai = [0u8; TILE_KIND_COUNT];
        tehai[9] = 2;
        tehai[10] = 2;
        tehai[11] = 2;
        let pons: &[u8] = &[0]; // 1m (index 0), 定缺 Man 时副露有万
        let minkans: &[u8] = &[];
        let ankans: &[u8] = &[];
        assert!(has_ding_que_tiles_in_hand(&tehai, pons, minkans, ankans, Some(Suit::Man)));
        assert!(!can_agari_with_fuuro(&tehai, pons, minkans, ankans, Some(Suit::Man)));
        let pons_no_man: &[u8] = &[9];
        assert!(!has_ding_que_tiles_in_hand(&tehai, pons_no_man, minkans, ankans, Some(Suit::Man)));
        assert!(can_agari_with_fuuro(&tehai, pons_no_man, minkans, ankans, Some(Suit::Man)));
    }

