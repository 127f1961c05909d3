use libblood::hand::{hand, tiles_to_string};

#[test]
fn parse() {
        assert_eq!(
            hand("1111m 333p 222s").unwrap(),
            [
                4, 0, 0, 0, 0, 0, 0, 0, 0, // m
                0, 0, 3, 0, 0, 0, 0, 0, 0, // p
                0, 3, 0, 0, 0, 0, 0, 0, 0, // s
            ]
        );

        assert_eq!(
            hand("456m 6p 7899p 987s 9p").unwrap(),
            [
                0, 0, 0, 1, 1, 1, 0, 0, 0, // m
                0, 0, 0, 0, 0, 1, 1, 1, 3, // p
                0, 0, 0, 0, 0, 0, 1, 1, 1, // s
            ]
        );
    }

#[test]
fn rejects_tile_count_exceeds_4() {
        // 1m 出现 5 次 → 物理上不可能
        assert!(hand("111444777999m 11m").is_err());
        // 9p 出现 5 次
        assert!(hand("9999p 9p").is_err());
        // 恰好 4 张应通过
        assert!(hand("1111m").is_ok());
    }

#[test]
fn string() {
        assert_eq!(
            tiles_to_string(&[
                0, 0, 2, 0, 1, 1, 1, 0, 0, // m
                0, 0, 1, 1, 1, 1, 1, 1, 0, // p
                0, 0, 0, 0, 0, 1, 1, 1, 0, // s
            ]),
            "33567m 345678p 678s"
        );
    }

