use libblood::board::Board;
use libblood::env_core::generate_deck;

fn kinds(b: &Board) -> Vec<usize> {
    let mut v: Vec<usize> = b.haipai.iter().flatten().map(|t| t.as_usize()).collect();
    v.extend(b.yama.iter().map(|t| t.as_usize()));
    v
}

#[test]
fn deal_sequence_gives_thirteen_each_and_the_rest_as_wall() {
    let mut b = Board::default();
    b.kyoku = 3;
    b.scores = [1, 2, 3, 4];
    b.deal_sequence(&generate_deck());
    let seat0: Vec<usize> = b.haipai[0].iter().map(|t| t.as_usize()).collect();
    assert_eq!(seat0, vec![0, 0, 0, 0, 1, 1, 1, 1, 2, 2, 2, 2, 3]);
    let seat3: Vec<usize> = b.haipai[3].iter().map(|t| t.as_usize()).collect();
    assert_eq!(seat3, vec![9, 10, 10, 10, 10, 11, 11, 11, 11, 12, 12, 12, 12]);
    assert_eq!(b.yama.len(), 56);
    assert_eq!(b.yama[0].as_usize(), 13);
    assert_eq!(b.yama[55].as_usize(), 26);
    assert_eq!(b.kyoku, 3);
    assert_eq!(b.scores, [1, 2, 3, 4]);
}

#[test]
fn seeded_deal_is_a_fixed_shuffle_of_the_full_set() {
    let mut a = Board::default();
    a.init_from_seed((7, 42));
    let mut b = Board::default();
    b.init_from_seed((7, 42));
    let ka = kinds(&a);
    assert_eq!(ka, kinds(&b));
    let mut sorted = ka.clone();
    sorted.sort();
    let full: Vec<usize> = (0..108).map(|i| i / 4).collect();
    assert_eq!(sorted, full);
    // Shuffled: not the set in order.
    assert_ne!(ka, full);
    // Another hand of the same game is dealt differently.
    let mut c = Board::default();
    c.kyoku = 1;
    c.init_from_seed((7, 42));
    assert_ne!(ka, kinds(&c));
}
