//! The state one seat keeps of a hand.
use crate::agari::FanConfig;
use crate::ding_que::{
    has_ding_que_tiles_in_hand, spec_has_ding_que_tiles_in_hand, spec_suit_id, suit_range,
};
use crate::grp::range_sum;
use crate::mjai::Suit;
use crate::state::action::{ActionCandidate, no_action};
use crate::state::invariants::lemma_fresh_wf;
use crate::state::item::{KawaItem, Sutehai};
use crate::state::rules::wf;
use crate::tile::Tile;
use vstd::prelude::*;

verus! {

/// What one seat knows of the hand in play: its own tiles and melds, every tile it has seen,
/// the discards and melds of the table (by seat relative to itself: 0 is itself, then the
/// next seats in turn), scores, void suits, and the actions the rules allow it next.
#[derive(Debug)]
pub struct PlayerState {
    pub player_id: u8,
    pub tehai: [u8; 27],
    /// Tiles that would complete the hand now (furiten not considered).
    pub waits: [bool; 27],
    /// Tiles of each kind this seat has seen: its own and every public one.
    pub tiles_seen: [u8; 27],
    /// Discards that keep the shanten number.
    pub keep_shanten_discards: [bool; 27],
    /// Discards that lower the shanten number.
    pub next_shanten_discards: [bool; 27],
    /// Tiles this seat may not discard now.
    pub forbidden_tiles: [bool; 27],
    /// The hand number, from 0.
    pub kyoku: u8,
    /// Scores by relative seat.
    pub scores: [i32; 4],
    /// The dealer's relative seat.
    pub oya: u8,
    /// Discard piles by relative seat; `None` marks a turn skipped by a call.
    pub kawa: [Vec<Option<KawaItem>>; 4],
    pub kawa_overview: [Vec<Tile>; 4],
    /// Open melds by relative seat, the called tile last.
    pub fuuro_overview: [Vec<Vec<Tile>>; 4],
    /// Concealed kans by relative seat.
    pub ankan_overview: [Vec<Tile>; 4],
    pub at_turn: u8,
    pub tiles_left: u8,
    /// The kan declared since the last discard, if any.
    pub intermediate_kan: Vec<Tile>,
    pub shanten: i8,
    pub last_self_tsumo: Option<Tile>,
    pub last_kawa_tile: Option<Tile>,
    pub last_cans: ActionCandidate,
    pub ankan_candidates: Vec<Tile>,
    pub kakan_candidates: Vec<Tile>,
    /// Set while this seat may rob an added kan.
    pub chankan_chance: Option<()>,
    pub chankan_kakan_actor: Option<u8>,
    pub chankan_kakan_tile: Option<u8>,
    /// This seat's added kan, until it draws its replacement tile.
    pub pending_kakan_tile: Option<u8>,
    /// The last discard came right after a kan.
    pub last_discard_was_after_kan: bool,
    /// Which relative seats have won.
    pub players_agari: [bool; 4],
    /// A ron was passed; a ron is allowed again only for more fan, until the next draw or
    /// call.
    pub temporary_furiten: bool,
    /// The highest fan of a passed ron.
    pub furiten_passed_ron_fan: Option<u8>,
    /// The fan of the ron on offer.
    pub current_ron_fan: Option<u8>,
    /// This seat's last draw was a replacement tile after its own kan.
    pub at_rinshan: bool,
    pub kans_on_board: u8,
    pub pons: Vec<u8>,
    pub minkans: Vec<u8>,
    pub ankans: Vec<u8>,
    pub has_agari: bool,
    pub ding_que: Option<Suit>,
    /// The void suits of the other seats, relative seats 1 to 3.
    pub other_ding_que: [Option<Suit>; 3],
    pub tehai_len_div3: u8,
    /// Some discard lowers the shanten number.
    pub has_next_shanten_discard: bool,
    pub fan_config: FanConfig,
}

/// A discard as the view holds it: the kan before it, and the tile.
pub type KawaView = (Seq<Tile>, Sutehai);

/// A `PlayerState` with its vectors and flag arrays as sequences.
pub struct PlayerView {
    pub player_id: u8,
    pub tehai: [u8; 27],
    pub waits: Seq<bool>,
    pub tiles_seen: [u8; 27],
    pub keep_shanten_discards: Seq<bool>,
    pub next_shanten_discards: Seq<bool>,
    pub forbidden_tiles: Seq<bool>,
    pub kyoku: u8,
    pub scores: [i32; 4],
    pub oya: u8,
    pub kawa: Seq<Seq<Option<KawaView>>>,
    pub kawa_overview: Seq<Seq<Tile>>,
    pub fuuro_overview: Seq<Seq<Seq<Tile>>>,
    pub ankan_overview: Seq<Seq<Tile>>,
    pub at_turn: u8,
    pub tiles_left: u8,
    pub intermediate_kan: Seq<Tile>,
    pub shanten: i8,
    pub last_self_tsumo: Option<Tile>,
    pub last_kawa_tile: Option<Tile>,
    pub last_cans: ActionCandidate,
    pub ankan_candidates: Seq<Tile>,
    pub kakan_candidates: Seq<Tile>,
    pub chankan_chance: bool,
    pub chankan_kakan_actor: Option<u8>,
    pub chankan_kakan_tile: Option<u8>,
    pub pending_kakan_tile: Option<u8>,
    pub last_discard_was_after_kan: bool,
    pub players_agari: [bool; 4],
    pub temporary_furiten: bool,
    pub furiten_passed_ron_fan: Option<u8>,
    pub current_ron_fan: Option<u8>,
    pub at_rinshan: bool,
    pub kans_on_board: u8,
    pub pons: Seq<u8>,
    pub minkans: Seq<u8>,
    pub ankans: Seq<u8>,
    pub has_agari: bool,
    pub ding_que: Option<Suit>,
    pub other_ding_que: [Option<Suit>; 3],
    pub tehai_len_div3: u8,
    pub has_next_shanten_discard: bool,
    pub fan_config: FanConfig,
}

/// A discard as the view holds it.
pub open spec fn kawa_item_view(k: Option<KawaItem>) -> Option<KawaView> {
    match k {
        Some(item) => Some((item.kan@, item.sutehai)),
        None => None,
    }
}

/// The discard piles as sequences.
#[verifier::opaque]
pub open spec fn kawa_view(k: [Vec<Option<KawaItem>>; 4]) -> Seq<Seq<Option<KawaView>>> {
    Seq::new(4, |r: int| k[r]@.map_values(|x: Option<KawaItem>| kawa_item_view(x)))
}

/// Per-seat tile lists as sequences.
#[verifier::opaque]
pub open spec fn seats_view(k: [Vec<Tile>; 4]) -> Seq<Seq<Tile>> {
    Seq::new(4, |r: int| k[r]@)
}

/// Per-seat meld lists as sequences.
#[verifier::opaque]
pub open spec fn melds_view(k: [Vec<Vec<Tile>>; 4]) -> Seq<Seq<Seq<Tile>>> {
    Seq::new(4, |r: int| k[r]@.map_values(|m: Vec<Tile>| m@))
}

/// What `kawa_view` holds, entry by entry.
pub proof fn lemma_kawa_view(k: [Vec<Option<KawaItem>>; 4])
    ensures
        kawa_view(k).len() == 4,
        forall|r: int| 0 <= r < 4 ==> #[trigger] kawa_view(k)[r].len() == k[r]@.len(),
        forall|r: int, j: int|
            0 <= r < 4 && 0 <= j < k[r]@.len() ==> #[trigger] kawa_view(k)[r][j] == kawa_item_view(
                k[r]@[j],
            ),
{
    reveal(kawa_view);
}

/// One entry pushed on one pile.
pub proof fn lemma_kawa_view_push(
    k1: [Vec<Option<KawaItem>>; 4],
    k2: [Vec<Option<KawaItem>>; 4],
    r0: int,
    x: Option<KawaItem>,
)
    requires
        0 <= r0 < 4,
        k2[r0]@ == k1[r0]@.push(x),
        forall|r: int| 0 <= r < 4 && r != r0 ==> k2[r] == k1[r],
    ensures
        kawa_view(k2) == kawa_view(k1).update(r0, kawa_view(k1)[r0].push(kawa_item_view(x))),
{
    reveal(kawa_view);
    let a = kawa_view(k2);
    let b = kawa_view(k1).update(r0, kawa_view(k1)[r0].push(kawa_item_view(x)));
    assert forall|r: int| 0 <= r < 4 implies #[trigger] a[r] =~= b[r] by {}
    assert(a =~= b);
}

/// One tile pushed on one seat's list.
pub proof fn lemma_seats_view_push(k1: [Vec<Tile>; 4], k2: [Vec<Tile>; 4], r0: int, x: Tile)
    requires
        0 <= r0 < 4,
        k2[r0]@ == k1[r0]@.push(x),
        forall|r: int| 0 <= r < 4 && r != r0 ==> k2[r] == k1[r],
    ensures
        seats_view(k2) == seats_view(k1).update(r0, seats_view(k1)[r0].push(x)),
        seats_view(k1)[r0] == k1[r0]@,
{
    reveal(seats_view);
    assert(seats_view(k2) =~= seats_view(k1).update(r0, seats_view(k1)[r0].push(x)));
}

/// What `seats_view` holds.
pub proof fn lemma_seats_view(k: [Vec<Tile>; 4])
    ensures
        seats_view(k).len() == 4,
        forall|r: int| 0 <= r < 4 ==> #[trigger] seats_view(k)[r] == k[r]@,
{
    reveal(seats_view);
}

/// What `melds_view` holds, meld by meld.
pub proof fn lemma_melds_view(k: [Vec<Vec<Tile>>; 4])
    ensures
        melds_view(k).len() == 4,
        forall|r: int| 0 <= r < 4 ==> #[trigger] melds_view(k)[r].len() == k[r]@.len(),
        forall|r: int, j: int|
            0 <= r < 4 && 0 <= j < k[r]@.len() ==> #[trigger] melds_view(k)[r][j] == k[r]@[j]@,
{
    reveal(melds_view);
}

/// One meld pushed on one seat's melds.
pub proof fn lemma_melds_view_push(k1: [Vec<Vec<Tile>>; 4], k2: [Vec<Vec<Tile>>; 4], r0: int, m: Vec<Tile>)
    requires
        0 <= r0 < 4,
        k2[r0]@ == k1[r0]@.push(m),
        forall|r: int| 0 <= r < 4 && r != r0 ==> k2[r] == k1[r],
    ensures
        melds_view(k2) == melds_view(k1).update(r0, melds_view(k1)[r0].push(m@)),
{
    reveal(melds_view);
    let a = melds_view(k2);
    let b = melds_view(k1).update(r0, melds_view(k1)[r0].push(m@));
    assert forall|r: int| 0 <= r < 4 implies #[trigger] a[r] =~= b[r] by {}
    assert(a =~= b);
}

/// One meld of one seat replaced.
pub proof fn lemma_melds_view_set(
    k1: [Vec<Vec<Tile>>; 4],
    k2: [Vec<Vec<Tile>>; 4],
    r0: int,
    j: int,
    m: Vec<Tile>,
)
    requires
        0 <= r0 < 4,
        0 <= j < k1[r0]@.len(),
        k2[r0]@ == k1[r0]@.update(j, m),
        forall|r: int| 0 <= r < 4 && r != r0 ==> k2[r] == k1[r],
    ensures
        melds_view(k2) == melds_view(k1).update(r0, melds_view(k1)[r0].update(j, m@)),
{
    reveal(melds_view);
    let a = melds_view(k2);
    let b = melds_view(k1).update(r0, melds_view(k1)[r0].update(j, m@));
    assert forall|r: int| 0 <= r < 4 implies #[trigger] a[r] =~= b[r] by {}
    assert(a =~= b);
}

impl View for PlayerState {
    type V = PlayerView;

    open spec fn view(&self) -> PlayerView {
        PlayerView {
            player_id: self.player_id,
            tehai: self.tehai,
            waits: self.waits@,
            tiles_seen: self.tiles_seen,
            keep_shanten_discards: self.keep_shanten_discards@,
            next_shanten_discards: self.next_shanten_discards@,
            forbidden_tiles: self.forbidden_tiles@,
            kyoku: self.kyoku,
            scores: self.scores,
            oya: self.oya,
            kawa: kawa_view(self.kawa),
            kawa_overview: seats_view(self.kawa_overview),
            fuuro_overview: melds_view(self.fuuro_overview),
            ankan_overview: seats_view(self.ankan_overview),
            at_turn: self.at_turn,
            tiles_left: self.tiles_left,
            intermediate_kan: self.intermediate_kan@,
            shanten: self.shanten,
            last_self_tsumo: self.last_self_tsumo,
            last_kawa_tile: self.last_kawa_tile,
            last_cans: self.last_cans,
            ankan_candidates: self.ankan_candidates@,
            kakan_candidates: self.kakan_candidates@,
            chankan_chance: self.chankan_chance is Some,
            chankan_kakan_actor: self.chankan_kakan_actor,
            chankan_kakan_tile: self.chankan_kakan_tile,
            pending_kakan_tile: self.pending_kakan_tile,
            last_discard_was_after_kan: self.last_discard_was_after_kan,
            players_agari: self.players_agari,
            temporary_furiten: self.temporary_furiten,
            furiten_passed_ron_fan: self.furiten_passed_ron_fan,
            current_ron_fan: self.current_ron_fan,
            at_rinshan: self.at_rinshan,
            kans_on_board: self.kans_on_board,
            pons: self.pons@,
            minkans: self.minkans@,
            ankans: self.ankans@,
            has_agari: self.has_agari,
            ding_que: self.ding_que,
            other_ding_que: self.other_ding_que,
            tehai_len_div3: self.tehai_len_div3,
            has_next_shanten_discard: self.has_next_shanten_discard,
            fan_config: self.fan_config,
        }
    }
}

/// Twenty-seven copies of `b`.
pub open spec fn all27(b: bool) -> Seq<bool> {
    Seq::new(27, |i: int| b)
}

/// The state of seat `player_id` before any hand: nothing held or seen, every rule of the
/// full rule set on.
pub open spec fn is_fresh(v: PlayerView, player_id: u8) -> bool {
    &&& v.player_id == player_id
    &&& v.tehai@ == Seq::new(27, |i: int| 0u8)
    &&& v.waits == all27(false)
    &&& v.tiles_seen@ == Seq::new(27, |i: int| 0u8)
    &&& v.keep_shanten_discards == all27(false)
    &&& v.next_shanten_discards == all27(false)
    &&& v.forbidden_tiles == all27(false)
    &&& v.kyoku == 0
    &&& v.scores@ == seq![0i32, 0i32, 0i32, 0i32]
    &&& v.oya == 0
    &&& v.kawa == Seq::new(4, |r: int| Seq::<Option<KawaView>>::empty())
    &&& v.kawa_overview == Seq::new(4, |r: int| Seq::<Tile>::empty())
    &&& v.fuuro_overview == Seq::new(4, |r: int| Seq::<Seq<Tile>>::empty())
    &&& v.ankan_overview == Seq::new(4, |r: int| Seq::<Tile>::empty())
    &&& v.at_turn == 0
    &&& v.tiles_left == 0
    &&& v.intermediate_kan == Seq::<Tile>::empty()
    &&& v.shanten == 0
    &&& v.last_self_tsumo is None
    &&& v.last_kawa_tile is None
    &&& v.last_cans == no_action()
    &&& v.ankan_candidates == Seq::<Tile>::empty()
    &&& v.kakan_candidates == Seq::<Tile>::empty()
    &&& !v.chankan_chance
    &&& v.chankan_kakan_actor is None
    &&& v.chankan_kakan_tile is None
    &&& v.pending_kakan_tile is None
    &&& !v.last_discard_was_after_kan
    &&& v.players_agari@ == seq![false, false, false, false]
    &&& !v.temporary_furiten
    &&& v.furiten_passed_ron_fan is None
    &&& v.current_ron_fan is None
    &&& !v.at_rinshan
    &&& v.kans_on_board == 0
    &&& v.pons == Seq::<u8>::empty()
    &&& v.minkans == Seq::<u8>::empty()
    &&& v.ankans == Seq::<u8>::empty()
    &&& !v.has_agari
    &&& v.ding_que is None
    &&& v.other_ding_que@ == seq![None::<Suit>, None::<Suit>, None::<Suit>]
    &&& v.tehai_len_div3 == 0
    &&& !v.has_next_shanten_discard
    &&& v.fan_config == crate::agari::all_fans()
}

impl PlayerState {
    /// A seat's state before any hand. Seat numbers run from 0 to 3.
    pub fn new(player_id: u8) -> (r: Self)
        requires
            player_id < 4,
        ensures
            is_fresh(r@, player_id),
            wf(r@),
    {
        let r = PlayerState {
            player_id,
            tehai: [0u8; 27],
            waits: [false; 27],
            tiles_seen: [0u8; 27],
            keep_shanten_discards: [false; 27],
            next_shanten_discards: [false; 27],
            forbidden_tiles: [false; 27],
            kyoku: 0,
            scores: [0i32; 4],
            oya: 0,
            kawa: [Vec::new(), Vec::new(), Vec::new(), Vec::new()],
            kawa_overview: [Vec::new(), Vec::new(), Vec::new(), Vec::new()],
            fuuro_overview: [Vec::new(), Vec::new(), Vec::new(), Vec::new()],
            ankan_overview: [Vec::new(), Vec::new(), Vec::new(), Vec::new()],
            at_turn: 0,
            tiles_left: 0,
            intermediate_kan: Vec::new(),
            shanten: 0,
            last_self_tsumo: None,
            last_kawa_tile: None,
            last_cans: ActionCandidate::default(),
            ankan_candidates: Vec::new(),
            kakan_candidates: Vec::new(),
            chankan_chance: None,
            chankan_kakan_actor: None,
            chankan_kakan_tile: None,
            pending_kakan_tile: None,
            last_discard_was_after_kan: false,
            players_agari: [false; 4],
            temporary_furiten: false,
            furiten_passed_ron_fan: None,
            current_ron_fan: None,
            at_rinshan: false,
            kans_on_board: 0,
            pons: Vec::new(),
            minkans: Vec::new(),
            ankans: Vec::new(),
            has_agari: false,
            ding_que: None,
            other_ding_que: [None; 3],
            tehai_len_div3: 0,
            has_next_shanten_discard: false,
            fan_config: FanConfig::all(),
        };
        proof {
            reveal(kawa_view);
            reveal(seats_view);
            reveal(melds_view);
            assert(r@.waits =~= all27(false));
            assert(r@.keep_shanten_discards =~= all27(false));
            assert(r@.next_shanten_discards =~= all27(false));
            assert(r@.forbidden_tiles =~= all27(false));
            assert(r@.tehai@ =~= Seq::new(27, |i: int| 0u8));
            assert(r@.tiles_seen@ =~= Seq::new(27, |i: int| 0u8));
            assert(r@.scores@ =~= seq![0i32, 0i32, 0i32, 0i32]);
            assert(r@.players_agari@ =~= seq![false, false, false, false]);
            assert(r@.other_ding_que@ =~= seq![None::<Suit>, None::<Suit>, None::<Suit>]);
            assert forall|i: int| 0 <= i < 4 implies #[trigger] r@.kawa[i] =~= Seq::<
                Option<KawaView>,
            >::empty() by {}
            assert forall|i: int| 0 <= i < 4 implies #[trigger] r@.fuuro_overview[i] =~= Seq::<
                Seq<Tile>,
            >::empty() by {}
            assert(r@.kawa =~= Seq::new(4, |r: int| Seq::<Option<KawaView>>::empty()));
            assert(r@.kawa_overview =~= Seq::new(4, |r: int| Seq::<Tile>::empty()));
            assert(r@.fuuro_overview =~= Seq::new(4, |r: int| Seq::<Seq<Tile>>::empty()));
            assert(r@.ankan_overview =~= Seq::new(4, |r: int| Seq::<Tile>::empty()));
            lemma_fresh_wf(r@, player_id);
        }
        r
    }

    /// The fan rules this seat plays with.
    pub fn get_fan_config(&self) -> (r: FanConfig)
        ensures
            r == self.fan_config,
    {
        self.fan_config
    }

    /// Sets the fan rules (before the game starts).
    pub fn set_fan_config(&mut self, config: FanConfig)
        ensures
            final(self)@ == (PlayerView { fan_config: config, ..old(self)@ }),
    {
        self.fan_config = config;
    }

    /// A void suit is named and the whole hand, melds included, holds none of it.
    pub fn check_ding_que_complete(&self) -> (r: bool)
        ensures
            r == (self.ding_que is Some && !spec_has_ding_que_tiles_in_hand(
                self.tehai,
                self.pons@,
                self.minkans@,
                self.ankans@,
                self.ding_que,
            )),
    {
        if self.ding_que.is_none() {
            return false;
        }
        !has_ding_que_tiles_in_hand(
            &self.tehai,
            self.pons.as_slice(),
            self.minkans.as_slice(),
            self.ankans.as_slice(),
            self.ding_que,
        )
    }

    /// Which relative seats have won (0 is this seat).
    pub fn players_agari(&self) -> (r: &[bool; 4])
        ensures
            *r == self.players_agari,
    {
        &self.players_agari
    }

    /// Tiles of the void suit left in the concealed hand (0 before a void suit is named).
    pub fn count_ding_que_tiles(&self) -> (r: u8)
        requires
            forall|t: int| 0 <= t < 27 ==> self.tehai[t] <= 4,
        ensures
            r == match self.ding_que {
                Some(s) => range_sum(self.tehai@, 9 * spec_suit_id(s), 9),
                None => 0,
            },
    {
        match self.ding_que {
            Some(suit) => {
                let (start, end) = suit_range(suit);
                let mut n: u8 = 0;
                let mut i: usize = 0;
                while i < 9
                    invariant
                        i <= 9,
                        end == start + 9,
                        start == 9 * spec_suit_id(suit),
                        forall|t: int| 0 <= t < 27 ==> self.tehai[t] <= 4,
                        n == range_sum(self.tehai@, start as int, i as int),
                        n <= 4 * i,
                    decreases 9 - i,
                {
                    n = n + self.tehai[start + i];
                    i += 1;
                }
                n
            },
            None => 0,
        }
    }
}

} // verus!
