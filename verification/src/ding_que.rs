//! Ding que (定缺): each player names one suit that must leave the hand before a win.
use crate::mjai::Suit;
use vstd::prelude::*;

verus! {

/// Tile kind count (3 suits x 9 ranks).
pub const TILE_KIND_COUNT: usize = 27;

/// The index of a suit: Man 0, Pin 1, Sou 2.
pub open spec fn spec_suit_id(suit: Suit) -> int {
    match suit {
        Suit::Man => 0,
        Suit::Pin => 1,
        Suit::Sou => 2,
    }
}

/// The hand holds a tile of `suit`.
pub open spec fn spec_has_suit_tiles(tehai: [u8; 27], suit: Suit) -> bool {
    exists|i: int|
        9 * spec_suit_id(suit) <= i < 9 * spec_suit_id(suit) + 9 && #[trigger] tehai[i] > 0
}

/// `tile_id` belongs to the chosen ding que suit.
pub open spec fn spec_is_ding_que_tile(tile_id: int, ding_que: Option<Suit>) -> bool {
    match ding_que {
        Some(s) => tile_id / 9 == spec_suit_id(s),
        None => false,
    }
}

/// Some open meld (pon, minkan or ankan) is of a tile of the ding que suit.
pub open spec fn spec_melds_have_ding_que(
    pons: Seq<u8>,
    minkans: Seq<u8>,
    ankans: Seq<u8>,
    ding_que: Option<Suit>,
) -> bool {
    exists|t: u8|
        (pons.contains(t) || minkans.contains(t) || ankans.contains(t)) && t < 27
            && spec_is_ding_que_tile(t as int, ding_que)
}

/// The whole hand (concealed tiles and melds) still holds a tile of the ding que suit.
pub open spec fn spec_has_ding_que_tiles_in_hand(
    tehai: [u8; 27],
    pons: Seq<u8>,
    minkans: Seq<u8>,
    ankans: Seq<u8>,
    ding_que: Option<Suit>,
) -> bool {
    match ding_que {
        Some(s) => spec_has_suit_tiles(tehai, s) || spec_melds_have_ding_que(
            pons,
            minkans,
            ankans,
            ding_que,
        ),
        None => false,
    }
}

/// The range of tile ids a player must discard from, when the ding que rule binds.
pub open spec fn spec_ding_que_forced_range(tehai: [u8; 27], ding_que: Option<Suit>) -> Option<
    (usize, usize),
> {
    match ding_que {
        Some(s) => if spec_has_suit_tiles(tehai, s) {
            Some(((9 * spec_suit_id(s)) as usize, (9 * spec_suit_id(s) + 9) as usize))
        } else {
            None
        },
        None => None,
    }
}

/// Whether discarding `tile_id` is allowed by the ding que rule.
pub open spec fn spec_discard_allowed(tile_id: int, tehai: [u8; 27], ding_que: Option<Suit>) -> bool {
    match spec_ding_que_forced_range(tehai, ding_que) {
        Some((start, end)) => start <= tile_id < end,
        None => true,
    }
}

pub fn suit_id(suit: Suit) -> (r: usize)
    ensures
        r == spec_suit_id(suit),
{
    match suit {
        Suit::Man => 0,
        Suit::Pin => 1,
        Suit::Sou => 2,
    }
}

/// The tile-id range `[start, end)` of a suit.
pub fn suit_range(suit: Suit) -> (r: (usize, usize))
    ensures
        r.0 == 9 * spec_suit_id(suit),
        r.1 == 9 * spec_suit_id(suit) + 9,
{
    match suit {
        Suit::Man => (0, 9),
        Suit::Pin => (9, 18),
        Suit::Sou => (18, 27),
    }
}

pub fn tile_suit_id(tile_id: usize) -> (r: usize)
    ensures
        r == tile_id / 9,
{
    tile_id / 9
}

pub fn has_suit_tiles(tehai: &[u8; TILE_KIND_COUNT], suit: Suit) -> (r: bool)
    ensures
        r == spec_has_suit_tiles(*tehai, suit),
{
    let (start, end) = suit_range(suit);
    let mut i: usize = start;
    while i < end
        invariant
            start <= i <= end,
            start == 9 * spec_suit_id(suit),
            end == start + 9,
            forall|j: int| start <= j < i ==> tehai[j] == 0,
        decreases end - i,
    {
        if tehai[i] > 0 {
            return true;
        }
        i += 1;
    }
    proof {
        lemma_no_suit_tiles(tehai, suit);
    }
    false
}

proof fn lemma_no_suit_tiles(tehai: &[u8; 27], suit: Suit)
    requires
        forall|j: int| 9 * spec_suit_id(suit) <= j < 9 * spec_suit_id(suit) + 9 ==> tehai[j] == 0,
    ensures
        !spec_has_suit_tiles(*tehai, suit),
{
}

/// The first meld tile of `melds` that is of the ding que suit, if any.
fn melds_hold_ding_que(melds: &[u8], ding_que: Option<Suit>) -> (r: bool)
    ensures
        r == exists|t: u8| melds@.contains(t) && t < 27 && spec_is_ding_que_tile(t as int, ding_que),
{
    let mut i: usize = 0;
    while i < melds.len()
        invariant
            i <= melds@.len(),
            forall|j: int|
                0 <= j < i ==> !(melds@[j] < 27 && spec_is_ding_que_tile(melds@[j] as int, ding_que)),
        decreases melds.len() - i,
    {
        let t = melds[i];
        if (t as usize) < TILE_KIND_COUNT && is_ding_que_tile(t as usize, ding_que) {
            assert(melds@.contains(t));
            return true;
        }
        i += 1;
    }
    assert forall|t: u8| melds@.contains(t) implies !(t < 27 && spec_is_ding_que_tile(t as int, ding_que)) by {
        let j = choose|j: int| 0 <= j < melds@.len() && melds@[j] == t;
    }
    false
}

/// Whether the whole hand (concealed tiles and melds) still holds a ding que tile.
pub fn has_ding_que_tiles_in_hand(
    tehai: &[u8; TILE_KIND_COUNT],
    pons: &[u8],
    minkans: &[u8],
    ankans: &[u8],
    ding_que: Option<Suit>,
) -> (r: bool)
    ensures
        r == spec_has_ding_que_tiles_in_hand(*tehai, pons@, minkans@, ankans@, ding_que),
{
    if let Some(suit) = ding_que {
        if has_suit_tiles(tehai, suit) {
            return true;
        }
        melds_hold_ding_que(pons, ding_que) || melds_hold_ding_que(minkans, ding_que)
            || melds_hold_ding_que(ankans, ding_que)
    } else {
        false
    }
}

/// A win is possible only when the whole hand holds no ding que tile (else the player is a 花猪).
pub fn can_agari_with_fuuro(
    tehai: &[u8; TILE_KIND_COUNT],
    pons: &[u8],
    minkans: &[u8],
    ankans: &[u8],
    ding_que: Option<Suit>,
) -> (r: bool)
    ensures
        r == !spec_has_ding_que_tiles_in_hand(*tehai, pons@, minkans@, ankans@, ding_que),
{
    !has_ding_que_tiles_in_hand(tehai, pons, minkans, ankans, ding_que)
}

pub fn is_ding_que_tile(tile_id: usize, ding_que: Option<Suit>) -> (r: bool)
    ensures
        r == spec_is_ding_que_tile(tile_id as int, ding_que),
{
    match ding_que {
        Some(s) => tile_suit_id(tile_id) == suit_id(s),
        None => false,
    }
}

/// `Some((start, end))` when the hand still holds ding que tiles: the range that must be discarded from.
pub fn ding_que_forced_range(tehai: &[u8; TILE_KIND_COUNT], ding_que: Option<Suit>) -> (r: Option<
    (usize, usize),
>)
    ensures
        r == spec_ding_que_forced_range(*tehai, ding_que),
{
    match ding_que {
        Some(s) => if has_suit_tiles(tehai, s) {
            Some(suit_range(s))
        } else {
            None
        },
        None => None,
    }
}

/// While the hand holds ding que tiles, only they may be discarded; otherwise anything may.
pub fn discard_allowed(tile_id: usize, tehai: &[u8; TILE_KIND_COUNT], ding_que: Option<Suit>) -> (r:
    bool)
    ensures
        r == spec_discard_allowed(tile_id as int, *tehai, ding_que),
{
    match ding_que_forced_range(tehai, ding_que) {
        Some((start, end)) => tile_id >= start && tile_id < end,
        None => true,
    }
}


/// The void-suit discard rule: while the hand holds a tile of its void suit `s`, a tile may be
/// discarded exactly when it is of suit `s` (its id divided by nine is the suit's index), so a
/// tile of any other suit is refused; once no tile of `s` is held, or no void suit is named,
/// every tile may be discarded.
pub proof fn lemma_discard_rule(tile_id: int, tehai: [u8; 27], s: Suit)
    requires
        0 <= tile_id,
    ensures
        (exists|i: int| 0 <= i < 27 && i / 9 == spec_suit_id(s) && #[trigger] tehai[i] > 0) ==> (spec_discard_allowed(
            tile_id,
            tehai,
            Some(s),
        ) <==> tile_id / 9 == spec_suit_id(s)),
        (forall|i: int| 0 <= i < 27 && i / 9 == spec_suit_id(s) ==> #[trigger] tehai[i] == 0) ==> spec_discard_allowed(
            tile_id,
            tehai,
            Some(s),
        ),
        spec_discard_allowed(tile_id, tehai, None),
{
    if exists|i: int| 0 <= i < 27 && i / 9 == spec_suit_id(s) && #[trigger] tehai[i] > 0 {
        let i = choose|i: int| 0 <= i < 27 && i / 9 == spec_suit_id(s) && #[trigger] tehai[i] > 0;
        assert(9 * spec_suit_id(s) <= i < 9 * spec_suit_id(s) + 9);
        assert(spec_has_suit_tiles(tehai, s));
    }
    if forall|i: int| 0 <= i < 27 && i / 9 == spec_suit_id(s) ==> #[trigger] tehai[i] == 0 {
        assert forall|i: int| 9 * spec_suit_id(s) <= i < 9 * spec_suit_id(s) + 9 implies !(#[trigger] tehai[i] > 0) by {
            assert(i / 9 == spec_suit_id(s));
        }
        assert(!spec_has_suit_tiles(tehai, s));
    }
}

} // verus!
