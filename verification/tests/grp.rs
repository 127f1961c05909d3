use libblood::grp::count_sequences_in_suit;

#[test]
fn ding_que_count_sequences_in_suit() {
        // No sequence: 1m 5m 9m
        assert_eq!(count_sequences_in_suit(&[1, 0, 0, 0, 1, 0, 0, 0, 1]), 0);
        // One sequence: 123
        assert_eq!(count_sequences_in_suit(&[1, 1, 1, 0, 0, 0, 0, 0, 0]), 1);
        // Two sequences: 123 + 234
        assert_eq!(count_sequences_in_suit(&[1, 1, 1, 1, 1, 1, 0, 0, 0]), 2);
        // 111234 -> one 顺子 (123), one 2 and 3 left but no 4 for 234
        assert_eq!(count_sequences_in_suit(&[3, 1, 1, 1, 0, 0, 0, 0, 0]), 1);
    }

