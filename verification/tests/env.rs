use libblood::env_core::{generate_deck, get_legal_actions, shuffle_deck, Action, BatchedEnv, GameState, NUM_TILES};

#[test]
fn deck_has_four_of_each() {
    let deck = generate_deck();
    assert_eq!(deck.len(), NUM_TILES);
    for (i, &t) in deck.iter().enumerate() {
        assert_eq!(t as usize, i / 4);
    }
    let mut shuffled = deck.clone();
    shuffle_deck(&mut shuffled);
    let mut sorted = shuffled.clone();
    sorted.sort();
    assert_eq!(sorted, deck);
}

#[test]
fn reset_deals_the_full_set() {
    let mut g = GameState::new();
    g.players[2].score = 500;
    g.reset();
    assert_eq!(g.wall.len(), 55);
    assert_eq!(g.current_player, 0);
    assert_eq!(g.players[2].score, 500);
    let sizes: Vec<u32> = g.players.iter().map(|p| p.hand.iter().map(|&c| c as u32).sum()).collect();
    assert_eq!(sizes, vec![14, 13, 13, 13]);
    for k in 0..27 {
        let held: u32 = g.players.iter().map(|p| p.hand[k] as u32).sum();
        let walled = g.wall.iter().filter(|&&t| t as usize == k).count() as u32;
        assert_eq!(held + walled, 4);
    }
}

#[test]
fn legal_actions_follow_the_void_suit() {
    let mut g = GameState::new();
    assert!(matches!(get_legal_actions(&g)[..], [Action::DingQue(0), Action::DingQue(1), Action::DingQue(2)]));
    g.players[0].missing_suit = Some(1);
    g.players[0].hand[3] = 1;
    g.players[0].hand[12] = 2;
    g.players[0].hand[14] = 1;
    assert_eq!(get_legal_actions(&g), vec![Action::Discard(12), Action::Discard(14)]);
    g.players[0].hand[12] = 0;
    g.players[0].hand[14] = 0;
    assert_eq!(get_legal_actions(&g), vec![Action::Discard(3)]);
    g.is_done = true;
    assert!(get_legal_actions(&g).is_empty());
}

#[test]
fn batched_step() {
    let mut env = BatchedEnv::new(2);
    env.reset(None);
    // Table 0 names Pin void; table 1 gets no action (-1) and only counts a turn.
    let dones = env.step(&[35]);
    assert_eq!(dones, vec![false, false]);
    assert_eq!(env.states[0].players[0].missing_suit, Some(1));
    assert_eq!(env.states[1].turn_count, 1);
    // Discard a held tile on table 0: the turn passes and seat 1 draws.
    let tile = (0..27).find(|&k| env.states[0].players[0].hand[k] > 0).unwrap();
    let wall_before = env.states[0].wall.len();
    let drawn = *env.states[0].wall.last().unwrap();
    let seat1_before = env.states[0].players[1].hand[drawn as usize];
    env.step(&[tile as i32, -1]);
    assert_eq!(env.states[0].current_player, 1);
    assert_eq!(env.states[0].wall.len(), wall_before - 1);
    assert_eq!(env.states[0].players[1].hand[drawn as usize], seat1_before + 1);
}

#[test]
fn empty_wall_ends_the_game() {
    let mut env = BatchedEnv::new(1);
    env.states[0].players[0].hand[5] = 1;
    let dones = env.step(&[5]);
    assert_eq!(dones, vec![true]);
    // A finished table stays as it is.
    let dones = env.step(&[5]);
    assert_eq!(dones, vec![true]);
    assert_eq!(env.states[0].turn_count, 1);
}

#[test]
fn reset_only_listed_tables() {
    let mut env = BatchedEnv::new(3);
    env.reset(Some(&[1, 7]));
    assert_eq!(env.states[1].wall.len(), 55);
    assert!(env.states[0].wall.is_empty());
    assert!(env.states[2].wall.is_empty());
}

#[test]
fn deal_from_an_ordered_deck_draws_from_its_end() {
    let deck = generate_deck();
    let mut g = GameState::new();
    g.players[2].score = 500;
    g.deal_from(deck.clone());
    // Seat 0: deck[95..108] (kind 23 once, kinds 24-26 four times) and then deck[55] (kind 13).
    let mut want0 = [0u8; 27];
    want0[23] = 1;
    want0[24] = 4;
    want0[25] = 4;
    want0[26] = 4;
    want0[13] = 1;
    assert_eq!(g.players[0].hand, want0);
    // Seat 1: deck[82..95].
    let mut want1 = [0u8; 27];
    want1[20] = 2;
    want1[21] = 4;
    want1[22] = 4;
    want1[23] = 3;
    assert_eq!(g.players[1].hand, want1);
    assert_eq!(g.wall, deck[..55].to_vec());
    assert_eq!(g.players[2].score, 500);
    assert_eq!(g.current_player, 0);
}
