//! A small batched environment of Bloody Battle mahjong: a shuffled deal, the void-suit
//! choice and discards with draws from the wall.
use vstd::prelude::*;

verus! {

broadcast use {vstd::array::group_array_axioms, vstd::seq_lib::group_to_multiset_ensures};

/// Players at a table.
pub const NUM_PLAYERS: usize = 4;

/// Tiles in a full set: 3 suits x 9 ranks x 4 copies.
pub const NUM_TILES: usize = 108;

/// A tile kind: 0-8 Man, 9-17 Pin, 18-26 Sou, rank 1 first.
pub type TileIdx = u8;

/// One player's side of the table.
#[derive(Clone, Debug)]
pub struct PlayerState {
    /// Tiles held, per kind.
    pub hand: [u8; 27],
    pub melds: Vec<Meld>,
    pub score: i32,
    /// The void suit (0 Man, 1 Pin, 2 Sou), once named.
    pub missing_suit: Option<u8>,
    pub has_won: bool,
}

/// An open or concealed meld.
#[derive(Clone, Copy, Debug, PartialEq, Eq, Structural)]
pub enum Meld {
    Pon(TileIdx),
    /// An open kan.
    MinKan(TileIdx),
    /// A concealed kan.
    AnKan(TileIdx),
}

/// What a player can do.
#[derive(Clone, Copy, Debug, PartialEq, Eq, Structural)]
pub enum Action {
    Discard(TileIdx),
    Pon,
    /// Open or concealed, as the situation allows.
    Kan,
    Ron,
    Tsumo,
    Pass,
    /// Name the void suit (0, 1 or 2).
    DingQue(u8),
}

/// The state of one table.
#[derive(Clone, Debug)]
pub struct GameState {
    pub players: [PlayerState; 4],
    /// The tiles not yet drawn; the next draw takes the last one.
    pub wall: Vec<TileIdx>,
    pub current_player: usize,
    pub turn_count: usize,
    pub is_done: bool,
}

/// A player with nothing: no tiles, no melds, no score, no void suit, no win.
pub open spec fn is_fresh_player(p: PlayerState) -> bool {
    &&& forall|k: int| 0 <= k < 27 ==> #[trigger] p.hand[k] == 0
    &&& p.melds@.len() == 0
    &&& p.score == 0
    &&& p.missing_suit is None
    &&& !p.has_won
}

impl Default for PlayerState {
    fn default() -> (r: Self)
        ensures
            is_fresh_player(r),
    {
        PlayerState {
            hand: [0u8; 27],
            melds: Vec::new(),
            score: 0,
            missing_suit: None,
            has_won: false,
        }
    }
}

/// Occurrences of tile `k` in `s`.
pub open spec fn occ(s: Seq<u8>, k: int) -> int
    decreases s.len(),
{
    if s.len() == 0 {
        0
    } else {
        occ(s.drop_last(), k) + if s.last() as int == k {
            1int
        } else {
            0int
        }
    }
}

/// Tiles of kind `k` in the four hands together.
pub open spec fn held(players: [PlayerState; 4], k: int) -> int {
    players[0].hand[k] + players[1].hand[k] + players[2].hand[k] + players[3].hand[k]
}

/// Tiles in a hand, kinds below `n`.
pub open spec fn hand_size(h: Seq<u8>, n: int) -> int
    decreases n,
{
    if n <= 0 {
        0
    } else {
        hand_size(h, n - 1) + h[n - 1]
    }
}

/// The full set in id order: four copies of each kind.
pub open spec fn full_deck() -> Seq<u8> {
    Seq::new(108, |i: int| (i / 4) as u8)
}

/// The table after a deal: fresh players (scores kept from `before`), the dealer (seat 0)
/// to act with 14 tiles, the others with 13, 55 tiles in the wall, and the hands and the
/// wall holding together exactly the full set.
pub open spec fn is_dealt(before: GameState, after: GameState) -> bool {
    &&& forall|p: int|
        0 <= p < 4 ==> {
            &&& (#[trigger] after.players[p]).melds@.len() == 0
            &&& after.players[p].missing_suit is None
            &&& !after.players[p].has_won
            &&& after.players[p].score == before.players[p].score
            &&& hand_size(after.players[p].hand@, 27) == if p == 0 {
                14int
            } else {
                13int
            }
        }
    &&& after.wall@.len() == 55
    &&& forall|k: int| 0 <= k < 27 ==> #[trigger] held(after.players, k) + occ(after.wall@, k) == 4
    &&& forall|i: int| 0 <= i < after.wall@.len() ==> #[trigger] after.wall@[i] < 27
    &&& after.current_player == 0
    &&& after.turn_count == 0
    &&& !after.is_done
}

/// The 13 tiles seat `p` draws from `deck` in the deal: seat 0 the last 13, seat 1 the 13
/// before them, and so on.
pub open spec fn seat_share(deck: Seq<u8>, p: int) -> Seq<u8> {
    deck.subrange(95 - 13 * p, 108 - 13 * p)
}

/// Tiles of kind `k` that seat `p` holds after the deal of `deck`: its share, and for the
/// dealer the tile drawn after the four shares.
pub open spec fn dealt_count(deck: Seq<u8>, p: int, k: int) -> int {
    occ(seat_share(deck, p), k) + if p == 0 && deck[55] as int == k {
        1int
    } else {
        0int
    }
}

/// `after` is `before` dealt from `deck`: each hand as `dealt_count` says, the first 55 tiles
/// as the wall, and the rest as `is_dealt` says.
pub open spec fn is_deal_of(deck: Seq<u8>, before: GameState, after: GameState) -> bool {
    &&& forall|p: int, k: int| 0 <= p < 4 && 0 <= k < 27 ==> #[trigger] after.players[p].hand[k] == dealt_count(deck, p, k)
    &&& after.wall@ == deck.subrange(0, 55)
    &&& is_dealt(before, after)
}

impl GameState {
    /// Well-formed: the acting seat exists, every void suit is a suit, the wall holds tile
    /// kinds, and no kind has more than four tiles in the hands and the wall together.
    pub open spec fn wf(&self) -> bool {
        &&& self.current_player < 4
        &&& forall|p: int|
            0 <= p < 4 ==> ((#[trigger] self.players[p]).missing_suit matches Some(s) ==> s <= 2)
        &&& forall|i: int| 0 <= i < self.wall@.len() ==> #[trigger] self.wall@[i] < 27
        &&& forall|k: int| 0 <= k < 27 ==> #[trigger] held(self.players, k) + occ(self.wall@, k) <= 4
    }

    /// An empty table: fresh players, an empty wall, seat 0 to act.
    pub fn new() -> (r: Self)
        ensures
            forall|p: int| 0 <= p < 4 ==> is_fresh_player(#[trigger] r.players[p]),
            r.wall@.len() == 0,
            r.current_player == 0,
            r.turn_count == 0,
            !r.is_done,
            r.wf(),
    {
        GameState {
            players: [
                PlayerState::default(),
                PlayerState::default(),
                PlayerState::default(),
                PlayerState::default(),
            ],
            wall: Vec::new(),
            current_player: 0,
            turn_count: 0,
            is_done: false,
        }
    }
}


/// Shuffles the deck in place with `rand::seq::SliceRandom::shuffle` on `rand::thread_rng()`
/// (swaps only, so a permutation). Which permutation comes out is chance: only that the
/// tiles and their number are kept is stated.
#[verifier::external_body]
pub fn shuffle_deck(deck: &mut Vec<u8>)
    ensures
        final(deck)@.len() == old(deck)@.len(),
        final(deck)@.to_multiset() == old(deck)@.to_multiset(),
{
    let mut rng = rand::thread_rng();
    rand::seq::SliceRandom::shuffle(deck.as_mut_slice(), &mut rng);
}

/// The full set of 108 tiles in id order: four copies of each of the 27 kinds.
pub fn generate_deck() -> (r: Vec<u8>)
    ensures
        r@ == full_deck(),
{
    let mut deck: Vec<u8> = Vec::with_capacity(108);
    let mut tile: u8 = 0;
    while tile < 27
        invariant
            tile <= 27,
            deck@ == full_deck().take(4 * tile as int),
        decreases 27 - tile,
    {
        let mut c: usize = 0;
        while c < 4
            invariant
                c <= 4,
                tile < 27,
                deck@ == full_deck().take(4 * tile as int + c as int),
            decreases 4 - c,
        {
            proof {
                assert(((4 * tile as int + c as int) / 4) as u8 == tile);
            }
            deck.push(tile);
            assert(deck@ =~= full_deck().take(4 * tile as int + c + 1));
            c += 1;
        }
        tile += 1;
    }
    assert(deck@ =~= full_deck());
    deck
}

proof fn lemma_occ_multiset(s: Seq<u8>, k: u8)
    ensures
        occ(s, k as int) == s.to_multiset().count(k),
    decreases s.len(),
{
    if s.len() > 0 {
        lemma_occ_multiset(s.drop_last(), k);
        assert(s =~= s.drop_last().push(s.last()));
    } else {
        assert(s.to_multiset() =~= vstd::multiset::Multiset::empty());
    }
}

proof fn lemma_occ_full_prefix(n: int, k: int)
    requires
        0 <= n <= 108,
        0 <= k,
    ensures
        occ(full_deck().take(n), k) == if n <= 4 * k {
            0
        } else if n >= 4 * k + 4 {
            4
        } else {
            n - 4 * k
        },
    decreases n,
{
    if n > 0 {
        lemma_occ_full_prefix(n - 1, k);
        assert(full_deck().take(n).drop_last() =~= full_deck().take(n - 1));
    }
}

proof fn lemma_occ_full(k: int)
    requires
        0 <= k < 27,
    ensures
        occ(full_deck(), k) == 4,
{
    lemma_occ_full_prefix(108, k);
    assert(full_deck().take(108) =~= full_deck());
}

proof fn lemma_occ_prepend(s: Seq<u8>, a: int, b: int, k: int)
    requires
        0 < a <= b <= s.len(),
    ensures
        occ(s.subrange(a - 1, b), k) == occ(s.subrange(a, b), k) + if s[a - 1] as int == k {
            1int
        } else {
            0int
        },
    decreases b - a,
{
    if b > a {
        lemma_occ_prepend(s, a, b - 1, k);
        assert(s.subrange(a - 1, b).drop_last() =~= s.subrange(a - 1, b - 1));
        assert(s.subrange(a, b).drop_last() =~= s.subrange(a, b - 1));
    } else {
        assert(s.subrange(a - 1, b).drop_last() =~= s.subrange(a, b));
    }
}

proof fn lemma_occ_nonneg(s: Seq<u8>, k: int)
    ensures
        0 <= occ(s, k),
    decreases s.len(),
{
    if s.len() > 0 {
        lemma_occ_nonneg(s.drop_last(), k);
    }
}

proof fn lemma_hand_size_add(h: Seq<u8>, t: int, n: int)
    requires
        0 <= t < 27,
        h.len() == 27,
        0 <= n <= 27,
        h[t] < 255,
    ensures
        hand_size(h.update(t, (h[t] + 1) as u8), n) == hand_size(h, n) + if t < n {
            1int
        } else {
            0int
        },
    decreases n,
{
    if n > 0 {
        lemma_hand_size_add(h, t, n - 1);
    }
}

proof fn lemma_hand_size_zero(h: Seq<u8>, n: int)
    requires
        0 <= n <= h.len(),
        forall|k: int| 0 <= k < n ==> #[trigger] h[k] == 0,
    ensures
        hand_size(h, n) == 0,
    decreases n,
{
    if n > 0 {
        lemma_hand_size_zero(h, n - 1);
    }
}

proof fn lemma_held_change(a: [PlayerState; 4], b: [PlayerState; 4], p: int, k: int)
    requires
        0 <= p < 4,
        forall|q: int| 0 <= q < 4 && q != p ==> #[trigger] b[q] == a[q],
    ensures
        held(b, k) == held(a, k) - a[p].hand[k] + b[p].hand[k],
{
    assert(p == 0 || b[0] == a[0]);
    assert(p == 1 || b[1] == a[1]);
    assert(p == 2 || b[2] == a[2]);
    assert(p == 3 || b[3] == a[3]);
}

proof fn lemma_hand_le_held(a: [PlayerState; 4], p: int, k: int)
    requires
        0 <= p < 4,
    ensures
        a[p].hand[k] <= held(a, k),
{
}

/// Adds one tile of kind `t` to the hand of seat `p`.
fn add_tile(players: &mut [PlayerState; 4], p: usize, t: usize)
    requires
        p < 4,
        t < 27,
        old(players)[p as int].hand[t as int] < 255,
    ensures
        forall|q: int| 0 <= q < 4 && q != p ==> #[trigger] final(players)[q] == old(players)[q],
        final(players)[p as int].hand@ == old(players)[p as int].hand@.update(
            t as int,
            (old(players)[p as int].hand[t as int] + 1) as u8,
        ),
        final(players)[p as int].melds == old(players)[p as int].melds,
        final(players)[p as int].score == old(players)[p as int].score,
        final(players)[p as int].missing_suit == old(players)[p as int].missing_suit,
        final(players)[p as int].has_won == old(players)[p as int].has_won,
{
    players[p].hand[t] = players[p].hand[t] + 1;
}

/// Takes one tile of kind `t` from the hand of seat `p`.
fn remove_tile(players: &mut [PlayerState; 4], p: usize, t: usize)
    requires
        p < 4,
        t < 27,
        old(players)[p as int].hand[t as int] > 0,
    ensures
        forall|q: int| 0 <= q < 4 && q != p ==> #[trigger] final(players)[q] == old(players)[q],
        final(players)[p as int].hand@ == old(players)[p as int].hand@.update(
            t as int,
            (old(players)[p as int].hand[t as int] - 1) as u8,
        ),
        final(players)[p as int].melds == old(players)[p as int].melds,
        final(players)[p as int].score == old(players)[p as int].score,
        final(players)[p as int].missing_suit == old(players)[p as int].missing_suit,
        final(players)[p as int].has_won == old(players)[p as int].has_won,
{
    players[p].hand[t] = players[p].hand[t] - 1;
}


/// Discards of the held kinds among `lo..lo + n`, lowest kind first.
pub open spec fn held_discards(hand: Seq<u8>, lo: int, n: int) -> Seq<Action>
    decreases n,
{
    if n <= 0 {
        Seq::empty()
    } else {
        let prev = held_discards(hand, lo, n - 1);
        let t = lo + n - 1;
        if hand[t] > 0 {
            prev.push(Action::Discard(t as u8))
        } else {
            prev
        }
    }
}

/// The legal actions of the acting seat: none once the game is over; naming the void suit
/// until it is named; then discarding a held tile of the void suit, or any held tile when
/// none of the void suit is left.
pub open spec fn legal_actions(state: GameState) -> Seq<Action> {
    if state.is_done {
        Seq::empty()
    } else {
        let p = state.players[state.current_player as int];
        match p.missing_suit {
            None => seq![Action::DingQue(0), Action::DingQue(1), Action::DingQue(2)],
            Some(m) => {
                let forced = held_discards(p.hand@, 9 * m, 9);
                if forced.len() > 0 {
                    forced
                } else {
                    held_discards(p.hand@, 0, 27)
                }
            },
        }
    }
}

/// The legal actions of the acting seat (see `legal_actions`).
pub fn get_legal_actions(state: &GameState) -> (r: Vec<Action>)
    requires
        state.current_player < 4,
        state.players[state.current_player as int].missing_suit matches Some(m) ==> m <= 2,
    ensures
        r@ == legal_actions(*state),
{
    let mut actions: Vec<Action> = Vec::new();
    if state.is_done {
        return actions;
    }
    let current_p = &state.players[state.current_player];
    match current_p.missing_suit {
        None => {
            actions.push(Action::DingQue(0));
            actions.push(Action::DingQue(1));
            actions.push(Action::DingQue(2));
            actions
        },
        Some(missing_suit) => {
            let suit_start: usize = (missing_suit * 9) as usize;
            let suit_end = suit_start + 9;
            let mut has_missing_suit = false;
            let mut i: usize = suit_start;
            while i < suit_end
                invariant
                    suit_start <= i <= suit_end,
                    suit_end == suit_start + 9,
                    suit_end <= 27,
                    actions@ == held_discards(current_p.hand@, suit_start as int, i - suit_start),
                    has_missing_suit == (actions@.len() > 0),
                decreases suit_end - i,
            {
                if current_p.hand[i] > 0 {
                    has_missing_suit = true;
                    actions.push(Action::Discard(i as u8));
                }
                i += 1;
            }
            if !has_missing_suit {
                let mut i: usize = 0;
                while i < 27
                    invariant
                        i <= 27,
                        actions@ == held_discards(current_p.hand@, 0, i as int),
                    decreases 27 - i,
                {
                    if current_p.hand[i] > 0 {
                        actions.push(Action::Discard(i as u8));
                    }
                    i += 1;
                }
            }
            actions
        },
    }
}

/// `b` is `a` but for the hand.
pub open spec fn same_but_hand(a: PlayerState, b: PlayerState) -> bool {
    &&& b.melds == a.melds
    &&& b.score == a.score
    &&& b.missing_suit == a.missing_suit
    &&& b.has_won == a.has_won
}

/// One step of a running table on action code `act`: codes 34-36 name the void suit
/// (Man, Pin, Sou) of the acting seat; a code 0-26 of a held kind discards it, passes the
/// turn to the next seat, which draws the last wall tile, and ends the game when the wall is
/// empty; anything else changes nothing. The turn count goes up in every case.
pub open spec fn stepped(a: GameState, b: GameState, act: int) -> bool {
    let cp = a.current_player as int;
    let p = a.players[cp];
    &&& b.turn_count == a.turn_count + 1
    &&& if 34 <= act <= 36 {
        &&& b.players[cp].missing_suit == Some((act - 34) as u8)
        &&& b.players[cp].hand == p.hand
        &&& b.players[cp].melds == p.melds
        &&& b.players[cp].score == p.score
        &&& b.players[cp].has_won == p.has_won
        &&& forall|q: int| 0 <= q < 4 && q != cp ==> #[trigger] b.players[q] == a.players[q]
        &&& b.wall@ == a.wall@
        &&& b.current_player == a.current_player
        &&& b.is_done == a.is_done
    } else if 0 <= act <= 26 && p.hand[act] > 0 {
        let nc = (cp + 1) % 4;
        &&& b.current_player == nc
        &&& same_but_hand(p, b.players[cp])
        &&& b.players[cp].hand@ == p.hand@.update(act, (p.hand[act] - 1) as u8)
        &&& if a.wall@.len() > 0 {
            let t = a.wall@.last() as int;
            &&& b.wall@ == a.wall@.drop_last()
            &&& !b.is_done
            &&& same_but_hand(a.players[nc], b.players[nc])
            &&& b.players[nc].hand@ == a.players[nc].hand@.update(t, (a.players[nc].hand[t] + 1) as u8)
            &&& forall|q: int| 0 <= q < 4 && q != cp && q != nc ==> #[trigger] b.players[q] == a.players[q]
        } else {
            &&& b.wall@ == a.wall@
            &&& b.is_done
            &&& forall|q: int| 0 <= q < 4 && q != cp ==> #[trigger] b.players[q] == a.players[q]
        }
    } else {
        &&& b.players == a.players
        &&& b.wall@ == a.wall@
        &&& b.current_player == a.current_player
        &&& b.is_done == a.is_done
    }
}

/// The action code of table `i`: its entry in `actions`, or -1 past the end.
pub open spec fn action_of(actions: Seq<i32>, i: int) -> int {
    if i < actions.len() {
        actions[i] as int
    } else {
        -1
    }
}

/// Takes one step on a running table.
fn step_state(state: &mut GameState, action: i32)
    requires
        old(state).wf(),
        !old(state).is_done,
        old(state).turn_count < usize::MAX,
    ensures
        stepped(*old(state), *final(state), action as int),
        final(state).wf(),
{
    let ghost a = *state;
    if action >= 34 && action <= 36 {
        let cp = state.current_player;
        state.players[cp].missing_suit = Some((action - 34) as u8);
        proof {
            assert forall|k: int| 0 <= k < 27 implies #[trigger] held(state.players, k) + occ(
                state.wall@,
                k,
            ) <= 4 by {
                lemma_held_change(a.players, state.players, cp as int, k);
            }
        }
    } else if action >= 0 && action <= 26 {
        let tile = action as usize;
        let cp = state.current_player;
        if state.players[cp].hand[tile] > 0 {
            remove_tile(&mut state.players, cp, tile);
            proof {
                assert forall|k: int| 0 <= k < 27 implies #[trigger] held(state.players, k) + occ(
                    state.wall@,
                    k,
                ) <= 4 by {
                    lemma_held_change(a.players, state.players, cp as int, k);
                }
            }
            let ghost removed = state.players;
            state.current_player = (cp + 1) % 4;
            match state.wall.pop() {
                Some(drawn) => {
                    let nc = state.current_player;
                    let ghost w = a.wall@;
                    proof {
                        assert(w.last() == drawn);
                        assert(w.drop_last() == state.wall@);
                        assert(occ(w, drawn as int) == occ(state.wall@, drawn as int) + 1);
                        lemma_occ_nonneg(state.wall@, drawn as int);
                        assert(held(state.players, drawn as int) + 1 <= 4);
                        lemma_hand_le_held(state.players, nc as int, drawn as int);
                    }
                    add_tile(&mut state.players, nc, drawn as usize);
                    proof {
                        assert forall|k: int| 0 <= k < 27 implies #[trigger] held(
                            state.players,
                            k,
                        ) + occ(state.wall@, k) <= 4 by {
                            lemma_held_change(removed, state.players, nc as int, k);
                            assert(occ(w, k) == occ(state.wall@, k) + if w.last() as int == k {
                                1int
                            } else {
                                0int
                            });
                        }
                        assert forall|i: int| 0 <= i < state.wall@.len() implies #[trigger] state.wall@[i]
                            < 27 by {
                            assert(state.wall@[i] == w[i]);
                        }
                    }
                },
                None => {
                    state.is_done = true;
                },
            }
        }
    }
    state.turn_count = state.turn_count + 1;
    proof {
        assert(state.current_player < 4);
        assert forall|p: int| 0 <= p < 4 implies ((#[trigger] state.players[p]).missing_suit matches Some(
            s,
        ) ==> s <= 2) by {
            assert(a.players[p].missing_suit matches Some(s) ==> s <= 2);
        }
        assert(forall|i: int| 0 <= i < state.wall@.len() ==> #[trigger] state.wall@[i] < 27);
        assert(forall|k: int| 0 <= k < 27 ==> #[trigger] held(state.players, k) + occ(state.wall@, k) <= 4);
    }
}

impl GameState {
    /// Starts a new game on this table: players are cleared (scores kept), the full set is
    /// shuffled, and `deal_from` deals it.
    pub fn reset(&mut self)
        ensures
            is_dealt(*old(self), *final(self)),
            final(self).wf(),
            exists|deck: Seq<u8>|
                deck.to_multiset() == full_deck().to_multiset() && #[trigger] is_deal_of(
                    deck,
                    *old(self),
                    *final(self),
                ),
    {
        let mut deck = generate_deck();
        shuffle_deck(&mut deck);
        proof {
            assert forall|k: int| 0 <= k < 27 implies #[trigger] occ(deck@, k) == 4 by {
                lemma_occ_multiset(deck@, k as u8);
                lemma_occ_multiset(full_deck(), k as u8);
                lemma_occ_full(k);
            }
            assert forall|i: int| 0 <= i < deck@.len() implies #[trigger] deck@[i] < 27 by {
                let x = deck@[i];
                assert(deck@.contains(x));
                assert(deck@.to_multiset().count(x) > 0);
                assert(full_deck().to_multiset().count(x) > 0);
                assert(full_deck().contains(x));
            }
        }
        let ghost d = deck@;
        self.deal_from(deck);
        assert(is_deal_of(d, *old(self), *self));
    }

    /// Deals `deck` (108 tiles, four of each kind): players are cleared (scores kept), the
    /// tiles are drawn from the end of the deck, 13 to each seat in turn, then a 14th to the
    /// dealer (seat 0), who is to act; the first 55 tiles are the wall.
    pub fn deal_from(&mut self, deck: Vec<u8>)
        requires
            deck@.len() == 108,
            forall|k: int| 0 <= k < 27 ==> #[trigger] occ(deck@, k) == 4,
            forall|i: int| 0 <= i < deck@.len() ==> #[trigger] deck@[i] < 27,
        ensures
            is_deal_of(deck@, *old(self), *final(self)),
            final(self).wf(),
    {
        let ghost before = *self;
        let mut p: usize = 0;
        while p < 4
            invariant
                p <= 4,
                forall|q: int|
                    0 <= q < p ==> {
                        &&& forall|k: int| 0 <= k < 27 ==> #[trigger] (#[trigger] self.players[q]).hand[k]
                            == 0
                        &&& self.players[q].melds@.len() == 0
                        &&& self.players[q].missing_suit is None
                        &&& !self.players[q].has_won
                        &&& self.players[q].score == before.players[q].score
                    },
                forall|q: int| p <= q < 4 ==> #[trigger] self.players[q].score == before.players[q].score,
            decreases 4 - p,
        {
            let score = self.players[p].score;
            self.players[p] = PlayerState {
                hand: [0u8; 27],
                melds: Vec::new(),
                score,
                missing_suit: None,
                has_won: false,
            };
            p += 1;
        }
        self.is_done = false;
        self.turn_count = 0;
        let ghost d0 = deck@;
        let mut deck = deck;
        proof {
            assert forall|k: int| 0 <= k < 27 implies #[trigger] held(self.players, k) + occ(deck@, k)
                == 4 by {
            }
            assert forall|q: int, k: int| 0 <= q < 4 && 0 <= k < 27 implies #[trigger] self.players[q].hand[k]
                == occ(d0.subrange(108 - 13 * q, 108 - 13 * q), k) by {
                assert(d0.subrange(108 - 13 * q, 108 - 13 * q).len() == 0);
            }
            assert forall|q: int| 0 <= q < 4 implies hand_size((#[trigger] self.players[q]).hand@, 27)
                == 0 by {
                lemma_hand_size_zero(self.players[q].hand@, 27);
            }
        }
        let mut player_idx: usize = 0;
        while player_idx < 4
            invariant
                player_idx <= 4,
                deck@.len() == 108 - 13 * player_idx,
                d0.len() == 108,
                deck@ == d0.subrange(0, 108 - 13 * player_idx),
                forall|q: int, k: int|
                    0 <= q < 4 && 0 <= k < 27 ==> #[trigger] self.players[q].hand[k] == occ(
                        d0.subrange(108 - 13 * q - if q < player_idx {
                            13int
                        } else {
                            0int
                        }, 108 - 13 * q),
                        k,
                    ),
                forall|k: int| 0 <= k < 27 ==> #[trigger] held(self.players, k) + occ(deck@, k) == 4,
                forall|i: int| 0 <= i < deck@.len() ==> #[trigger] deck@[i] < 27,
                forall|q: int|
                    0 <= q < 4 ==> {
                        &&& (#[trigger] self.players[q]).melds@.len() == 0
                        &&& self.players[q].missing_suit is None
                        &&& !self.players[q].has_won
                        &&& self.players[q].score == before.players[q].score
                        &&& hand_size(self.players[q].hand@, 27) == if q < player_idx {
                            13int
                        } else {
                            0int
                        }
                    },
                !self.is_done,
                self.turn_count == 0,
            decreases 4 - player_idx,
        {
            let mut c: usize = 0;
            while c < 13
                invariant
                    c <= 13,
                    player_idx < 4,
                    deck@.len() == 108 - 13 * player_idx - c,
                    d0.len() == 108,
                    deck@ == d0.subrange(0, 108 - 13 * player_idx - c),
                    forall|q: int, k: int|
                        0 <= q < 4 && 0 <= k < 27 ==> #[trigger] self.players[q].hand[k] == occ(
                            d0.subrange(108 - 13 * q - if q < player_idx {
                                13int
                            } else if q == player_idx {
                                c as int
                            } else {
                                0int
                            }, 108 - 13 * q),
                            k,
                        ),
                    forall|k: int| 0 <= k < 27 ==> #[trigger] held(self.players, k) + occ(deck@, k) == 4,
                    forall|i: int| 0 <= i < deck@.len() ==> #[trigger] deck@[i] < 27,
                    forall|q: int|
                        0 <= q < 4 ==> {
                            &&& (#[trigger] self.players[q]).melds@.len() == 0
                            &&& self.players[q].missing_suit is None
                            &&& !self.players[q].has_won
                            &&& self.players[q].score == before.players[q].score
                            &&& hand_size(self.players[q].hand@, 27) == if q < player_idx {
                                13int
                            } else if q == player_idx {
                                c as int
                            } else {
                                0int
                            }
                        },
                    !self.is_done,
                    self.turn_count == 0,
                decreases 13 - c,
            {
                let ghost pl = self.players;
                let ghost lo = 108 - 13 * player_idx - c;
                let ghost dk = deck@;
                assert(dk.last() == d0[lo - 1]);
                proof {
                    lemma_hand_le_held(pl, player_idx as int, dk.last() as int);
                    lemma_occ_nonneg(dk, dk.last() as int);
                    assert(pl[player_idx as int].hand[dk.last() as int] <= 4);
                }
                self.deal_one(&mut deck, player_idx);
                proof {
                    assert forall|q: int, k: int| 0 <= q < 4 && 0 <= k < 27 implies #[trigger] self.players[q].hand[k]
                        == occ(
                        d0.subrange(108 - 13 * q - if q < player_idx {
                            13int
                        } else if q == player_idx {
                            c + 1
                        } else {
                            0int
                        }, 108 - 13 * q),
                        k,
                    ) by {
                        if q == player_idx {
                            lemma_occ_prepend(d0, lo, 108 - 13 * q, k);
                            assert(self.players[q].hand@[k] == pl[q].hand@.update(
                                dk.last() as int,
                                (pl[q].hand[dk.last() as int] + 1) as u8,
                            )[k]);
                            assert(self.players[q].hand[k] == pl[q].hand[k] + if d0[lo - 1] == k {
                                1int
                            } else {
                                0int
                            });
                        } else {
                            assert(self.players[q].hand == pl[q].hand);
                        }
                    }
                    assert(deck@ =~= d0.subrange(0, lo - 1));
                }
                c += 1;
            }
            player_idx += 1;
        }
        self.current_player = 0;
        let ghost pl = self.players;
        let ghost dk = deck@;
        assert(dk =~= d0.subrange(0, 56));
        assert(dk.last() == d0[55]);
        proof {
            lemma_hand_le_held(pl, 0, dk.last() as int);
            lemma_occ_nonneg(dk, dk.last() as int);
            assert(pl[0].hand[dk.last() as int] <= 4);
        }
        self.deal_one(&mut deck, 0);
        proof {
            assert forall|q: int, k: int| 0 <= q < 4 && 0 <= k < 27 implies #[trigger] self.players[q].hand[k]
                == dealt_count(d0, q, k) by {
                if q != 0 {
                    assert(self.players[q].hand == pl[q].hand);
                } else {
                    assert(self.players[q].hand@[k] == pl[q].hand@.update(
                        dk.last() as int,
                        (pl[q].hand[dk.last() as int] + 1) as u8,
                    )[k]);
                    assert(pl[q].hand[k] == occ(seat_share(d0, 0), k));
                }
            }
            assert(deck@ =~= d0.subrange(0, 55));
        }
        self.wall = deck;
        proof {
            assert forall|p: int| 0 <= p < 4 implies ((#[trigger] self.players[p]).missing_suit matches Some(
                s,
            ) ==> s <= 2) by {}
        }
    }

    /// Moves the last tile of `deck` to the hand of seat `p`.
    fn deal_one(&mut self, deck: &mut Vec<u8>, p: usize)
        requires
            p < 4,
            old(deck)@.len() > 0,
            forall|k: int| 0 <= k < 27 ==> #[trigger] held(old(self).players, k) + occ(old(deck)@, k) == 4,
            forall|i: int| 0 <= i < old(deck)@.len() ==> #[trigger] old(deck)@[i] < 27,
        ensures
            final(deck)@ == old(deck)@.drop_last(),
            forall|k: int| 0 <= k < 27 ==> #[trigger] held(final(self).players, k) + occ(final(deck)@, k) == 4,
            forall|i: int| 0 <= i < final(deck)@.len() ==> #[trigger] final(deck)@[i] < 27,
            forall|q: int|
                0 <= q < 4 ==> {
                    &&& (#[trigger] final(self).players[q]).melds == old(self).players[q].melds
                    &&& final(self).players[q].missing_suit == old(self).players[q].missing_suit
                    &&& final(self).players[q].has_won == old(self).players[q].has_won
                    &&& final(self).players[q].score == old(self).players[q].score
                    &&& hand_size(final(self).players[q].hand@, 27) == hand_size(
                        old(self).players[q].hand@,
                        27,
                    ) + if q == p {
                        1int
                    } else {
                        0int
                    }
                },
            final(self).players[p as int].hand@ == old(self).players[p as int].hand@.update(
                old(deck)@.last() as int,
                (old(self).players[p as int].hand[old(deck)@.last() as int] + 1) as u8,
            ),
            forall|q: int| 0 <= q < 4 && q != p ==> #[trigger] final(self).players[q].hand == old(self).players[q].hand,
            final(self).wall == old(self).wall,
            final(self).current_player == old(self).current_player,
            final(self).turn_count == old(self).turn_count,
            final(self).is_done == old(self).is_done,
    {
        let ghost d = deck@;
        let tile = deck.pop().unwrap();
        let ghost pl = self.players;
        proof {
            assert(d.last() == tile);
            assert(occ(d, tile as int) == occ(deck@, tile as int) + 1);
            lemma_occ_nonneg(deck@, tile as int);
            lemma_hand_le_held(self.players, p as int, tile as int);
            lemma_hand_size_add(self.players[p as int].hand@, tile as int, 27);
        }
        add_tile(&mut self.players, p, tile as usize);
        proof {
            assert forall|k: int| 0 <= k < 27 implies #[trigger] held(self.players, k) + occ(deck@, k)
                == 4 by {
                lemma_held_change(pl, self.players, p as int, k);
                assert(occ(d, k) == occ(deck@, k) + if d.last() as int == k {
                    1int
                } else {
                    0int
                });
            }
            assert forall|i: int| 0 <= i < deck@.len() implies #[trigger] deck@[i] < 27 by {
                assert(deck@[i] == d[i]);
            }
        }
    }
}

/// Table `i` is dealt anew by a reset with `indices`: it is listed and below `num_envs`, or
/// no list is given.
pub open spec fn is_reset_target(indices: Option<&[usize]>, num_envs: usize, i: int) -> bool {
    match indices {
        Some(l) => i < num_envs && exists|j: int| 0 <= j < l@.len() && #[trigger] l@[j] == i,
        None => true,
    }
}

/// Table `a` became `b` in a batched step on action code `act`, reporting `done`: a finished
/// table stays as it is, a running one takes the step; `done` is whether `b` is over, and `b`
/// is well-formed.
pub open spec fn table_stepped(a: GameState, b: GameState, act: int, done: bool) -> bool {
    &&& if a.is_done {
        b == a
    } else {
        stepped(a, b, act)
    }
    &&& done == b.is_done
    &&& b.wf()
}

/// Many tables at once.
pub struct BatchedEnv {
    pub num_envs: usize,
    pub states: Vec<GameState>,
}

impl BatchedEnv {
    /// `num_envs` empty tables (see `GameState::new`).
    pub fn new(num_envs: usize) -> (r: Self)
        ensures
            r.num_envs == num_envs,
            r.states@.len() == num_envs,
            forall|i: int|
                0 <= i < num_envs ==> {
                    &&& forall|p: int| 0 <= p < 4 ==> is_fresh_player(#[trigger] r.states@[i].players[p])
                    &&& (#[trigger] r.states@[i]).wall@.len() == 0
                    &&& r.states@[i].current_player == 0
                    &&& r.states@[i].turn_count == 0
                    &&& !r.states@[i].is_done
                    &&& r.states@[i].wf()
                },
    {
        let mut states: Vec<GameState> = Vec::with_capacity(num_envs);
        let mut i: usize = 0;
        while i < num_envs
            invariant
                i <= num_envs,
                states@.len() == i,
                forall|j: int|
                    0 <= j < i ==> {
                        &&& forall|p: int| 0 <= p < 4 ==> is_fresh_player(#[trigger] states@[j].players[p])
                        &&& (#[trigger] states@[j]).wall@.len() == 0
                        &&& states@[j].current_player == 0
                        &&& states@[j].turn_count == 0
                        &&& !states@[j].is_done
                        &&& states@[j].wf()
                    },
            decreases num_envs - i,
        {
            states.push(GameState::new());
            i += 1;
        }
        BatchedEnv { num_envs, states }
    }

    /// Deals anew on the listed tables (those below `num_envs`; a table listed twice is dealt
    /// twice), or on every table when no list is given. The others stay as they were.
    pub fn reset(&mut self, indices: Option<&[usize]>)
        requires
            indices matches Some(l) ==> forall|j: int|
                0 <= j < l@.len() && #[trigger] l@[j] < old(self).num_envs ==> l@[j] < old(
                    self,
                ).states@.len(),
        ensures
            final(self).num_envs == old(self).num_envs,
            final(self).states@.len() == old(self).states@.len(),
            forall|i: int|
                0 <= i < old(self).states@.len() ==> if is_reset_target(indices, old(self).num_envs, i) {
                    is_dealt(old(self).states@[i], #[trigger] final(self).states@[i])
                        && final(self).states@[i].wf()
                } else {
                    final(self).states@[i] == old(self).states@[i]
                },
    {
        let ghost before = self.states@;
        match indices {
            Some(idx_list) => {
                let mut j: usize = 0;
                while j < idx_list.len()
                    invariant
                        j <= idx_list@.len(),
                        self.num_envs == old(self).num_envs,
                        self.states@.len() == before.len(),
                        before == old(self).states@,
                        forall|jj: int|
                            0 <= jj < idx_list@.len() && #[trigger] idx_list@[jj] < self.num_envs
                                ==> idx_list@[jj] < before.len(),
                        forall|i: int|
                            0 <= i < before.len() ==> if exists|jj: int|
                                0 <= jj < j && #[trigger] idx_list@[jj] == i && i < self.num_envs {
                                is_dealt(before[i], #[trigger] self.states@[i]) && self.states@[i].wf()
                            } else {
                                self.states@[i] == before[i]
                            },
                    decreases idx_list.len() - j,
                {
                    let i = idx_list[j];
                    if i < self.num_envs {
                        let ghost prev = self.states@[i as int];
                        self.states[i].reset();
                        proof {
                            assert(idx_list@[j as int] == i);
                        }
                    }
                    j += 1;
                }
            },
            None => {
                let mut i: usize = 0;
                while i < self.states.len()
                    invariant
                        i <= self.states@.len(),
                        self.num_envs == old(self).num_envs,
                        self.states@.len() == before.len(),
                        before == old(self).states@,
                        forall|k: int|
                            0 <= k < before.len() ==> if k < i {
                                is_dealt(before[k], #[trigger] self.states@[k]) && self.states@[k].wf()
                            } else {
                                self.states@[k] == before[k]
                            },
                    decreases self.states.len() - i,
                {
                    self.states[i].reset();
                    i += 1;
                }
            },
        }
    }

    /// One step on every table: a finished table stays as it is and reports done; a running
    /// one takes action `actions[i]` (-1 past the end of `actions`, see `stepped`). The
    /// result holds, per table, whether it is done.
    pub fn step(&mut self, actions: &[i32]) -> (dones: Vec<bool>)
        requires
            forall|i: int|
                0 <= i < old(self).states@.len() ==> (#[trigger] old(self).states@[i]).wf()
                    && old(self).states@[i].turn_count < usize::MAX,
        ensures
            final(self).num_envs == old(self).num_envs,
            final(self).states@.len() == old(self).states@.len(),
            dones@.len() == old(self).states@.len(),
            forall|i: int|
                0 <= i < dones@.len() ==> table_stepped(
                    old(self).states@[i],
                    final(self).states@[i],
                    action_of(actions@, i),
                    #[trigger] dones@[i],
                ),
    {
        let ghost before = self.states@;
        let mut dones: Vec<bool> = Vec::with_capacity(self.num_envs);
        let mut i: usize = 0;
        while i < self.states.len()
            invariant
                i <= self.states@.len(),
                self.num_envs == old(self).num_envs,
                self.states@.len() == before.len(),
                before == old(self).states@,
                dones@.len() == i,
                forall|k: int|
                    0 <= k < before.len() ==> (#[trigger] before[k]).wf() && before[k].turn_count
                        < usize::MAX,
                forall|k: int| i <= k < before.len() ==> #[trigger] self.states@[k] == before[k],
                forall|k: int|
                    0 <= k < i ==> table_stepped(
                        before[k],
                        self.states@[k],
                        action_of(actions@, k),
                        #[trigger] dones@[k],
                    ),
            decreases self.states.len() - i,
        {
            let ghost states0 = self.states@;
            let ghost dones0 = dones@;
            if self.states[i].is_done {
                dones.push(true);
                assert(table_stepped(before[i as int], self.states@[i as int], action_of(actions@, i as int), dones@[i as int]));
            } else {
                let action: i32 = if i < actions.len() {
                    actions[i]
                } else {
                    -1
                };
                assert(action as int == action_of(actions@, i as int));
                step_state(&mut self.states[i], action);
                let done = self.states[i].is_done;
                dones.push(done);
                assert(table_stepped(before[i as int], self.states@[i as int], action_of(actions@, i as int), dones@[i as int]));
            }
            proof {
                assert forall|k: int| 0 <= k < i + 1 implies table_stepped(
                    before[k],
                    self.states@[k],
                    action_of(actions@, k),
                    #[trigger] dones@[k],
                ) by {
                    if k < i {
                        assert(dones@[k] == dones0[k]);
                        assert(self.states@[k] == states0[k]);
                        assert(table_stepped(before[k], states0[k], action_of(actions@, k), dones0[k]));
                    }
                }
            }
            i += 1;
        }
        dones
    }
}

} // verus!
