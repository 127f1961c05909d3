use libblood::point::Point;

#[test]
fn bloody_battle_scoring() {
        assert_eq!(Point::calc_from_fan(1).ron, 1000);  // 1番 = 1000点
        assert_eq!(Point::calc_from_fan(2).ron, 2000);  // 2番 = 2000点
        assert_eq!(Point::calc_from_fan(3).ron, 4000);  // 3番 = 4000点
        assert_eq!(Point::calc_from_fan(4).ron, 8000);  // 4番 = 8000点
        assert_eq!(Point::calc_from_fan(5).ron, 16000); // 5番 = 16000点（封顶）
        assert_eq!(Point::calc_from_fan(6).ron, 16000); // 6番 = 16000点（封顶）
        assert_eq!(Point::calc_from_fan(10).ron, 16000); // 10番 = 16000点（封顶）

        // Test no oya advantage
        let point = Point::calc_from_fan(3);
        assert_eq!(point.ron, point.tsumo_ko);
        
        // Test tsumo_total with different payer counts
        assert_eq!(point.tsumo_total(3), 4000 * 3); // 3 players pay (game start)
        assert_eq!(point.tsumo_total(2), 4000 * 2); // 2 players pay (1 player won)
        assert_eq!(point.tsumo_total(1), 4000 * 1); // 1 player pays (2 players won)
    }

