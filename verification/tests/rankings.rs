use libblood::consts::{INITIAL_SCORE, TOTAL_SCORE};
use libblood::rankings::Rankings;

#[test]
fn rankings_no_agari_order() {
        // 向后兼容：无和牌顺序时同分按座位号
        let scores = [INITIAL_SCORE, INITIAL_SCORE, INITIAL_SCORE + 5000, INITIAL_SCORE - 5000];
        let rk = Rankings::new(scores);
        assert_eq!(rk.player_by_rank, [2, 0, 1, 3]);
        assert_eq!(rk.rank_by_player, [1, 2, 0, 3]);

        let scores = [INITIAL_SCORE; 4];
        let rk = Rankings::new(scores);
        assert_eq!(rk.player_by_rank, [0, 1, 2, 3]);

        let scores = [INITIAL_SCORE - 7000, INITIAL_SCORE + 7000, INITIAL_SCORE + 7000, INITIAL_SCORE - 7000];
        let rk = Rankings::new(scores);
        assert_eq!(rk.player_by_rank, [1, 2, 0, 3]);

        let scores = [INITIAL_SCORE + 7000, INITIAL_SCORE - 7000, INITIAL_SCORE - 7000, INITIAL_SCORE + 7000];
        let rk = Rankings::new(scores);
        assert_eq!(rk.player_by_rank, [0, 3, 1, 2]);

        let scores = [0, TOTAL_SCORE, 0, 0];
        let rk = Rankings::new(scores);
        assert_eq!(rk.player_by_rank, [1, 0, 2, 3]);
    }

#[test]
fn rankings_with_agari_order() {
        // 同分时先和牌者排名靠前
        let scores = [INITIAL_SCORE + 7000, INITIAL_SCORE + 7000, INITIAL_SCORE - 7000, INITIAL_SCORE - 7000];

        // P1 先和，P0 后和 → 同分时 P1 排在 P0 前面
        let rk = Rankings::new_with_agari_order(scores, Some(&[1, 0]));
        assert_eq!(rk.player_by_rank, [1, 0, 2, 3]);
        assert_eq!(rk.rank_by_player, [1, 0, 2, 3]);

        // P0 先和，P1 后和 → 同分时 P0 排在 P1 前面
        let rk = Rankings::new_with_agari_order(scores, Some(&[0, 1]));
        assert_eq!(rk.player_by_rank, [0, 1, 2, 3]);
        assert_eq!(rk.rank_by_player, [0, 1, 2, 3]);

        // 三人同分：P2 先和, P0 次之, P3 最后; P1 未和
        let scores = [INITIAL_SCORE; 4];
        let rk = Rankings::new_with_agari_order(scores, Some(&[2, 0, 3]));
        assert_eq!(rk.player_by_rank, [2, 0, 3, 1]);
        assert_eq!(rk.rank_by_player, [1, 3, 0, 2]);
    }

