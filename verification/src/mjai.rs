//! Events of the mjai protocol, as far as Bloody Battle mahjong uses them.
use crate::tile::Tile;
use vstd::prelude::*;

verus! {

broadcast use vstd::array::group_array_axioms;

/// Suit named for ding que.
#[derive(Debug, Clone, Copy, PartialEq, Eq, Structural)]
pub enum Suit {
    Man,
    Pin,
    Sou,
}

/// An event in mjai format (no chi, dora or riichi in this game).
#[derive(Debug, Clone)]
pub enum Event {
    Empty,
    StartGame { names: [String; 4], seed: Option<(u64, u64)> },
    StartKyoku { kyoku: u8, oya: u8, scores: [i32; 4], tehais: [[Tile; 13]; 4] },
    Tsumo { actor: u8, pai: Tile },
    Dahai { actor: u8, pai: Tile, tsumogiri: bool },
    Pon { actor: u8, target: u8, pai: Tile, consumed: [Tile; 2] },
    /// An open kan; `deltas` is its immediate payment, once the table has settled it.
    Daiminkan { actor: u8, target: u8, pai: Tile, consumed: [Tile; 3], deltas: Option<[i32; 4]> },
    /// An added kan, with its immediate payment.
    Kakan { actor: u8, pai: Tile, consumed: [Tile; 3], deltas: Option<[i32; 4]> },
    /// A concealed kan, with its immediate payment.
    Ankan { actor: u8, consumed: [Tile; 4], deltas: Option<[i32; 4]> },
    DingQue { actor: u8, suit: Suit },
    Hora { actor: u8, target: u8, deltas: Option<[i32; 4]> },
    Ryukyoku { deltas: Option<[i32; 4]> },
    EndKyoku,
    EndGame,
}

/// A number outside the range an event field allows.
#[derive(Debug, Clone, Copy, PartialEq, Eq, Structural)]
pub struct OutOfBoundError(pub u8);

/// An event together with whether the receiver may act on it.
#[derive(Debug, Clone)]
pub struct EventWithCanAct {
    pub event: Event,
    pub can_act: Option<bool>,
}

/// The acting player of an event, for the events that have one.
pub open spec fn spec_actor(ev: Event) -> Option<u8> {
    match ev {
        Event::Tsumo { actor, .. } => Some(actor),
        Event::Dahai { actor, .. } => Some(actor),
        Event::Pon { actor, .. } => Some(actor),
        Event::Daiminkan { actor, .. } => Some(actor),
        Event::Kakan { actor, .. } => Some(actor),
        Event::Ankan { actor, .. } => Some(actor),
        Event::DingQue { actor, .. } => Some(actor),
        Event::Hora { actor, .. } => Some(actor),
        _ => None,
    }
}

/// Every tile of `b` is the augmented tile of `a` at the same place.
pub open spec fn augmented_tiles<const N: usize>(a: [Tile; N], b: [Tile; N]) -> bool {
    forall|i: int| 0 <= i < N ==> #[trigger] b[i] == a[i].augmented()
}

/// `b` is `a` with every tile augmented (m and p swapped) and everything else kept.
pub open spec fn spec_augmented_event(a: Event, b: Event) -> bool {
    match (a, b) {
        (
            Event::StartKyoku { kyoku, oya, scores, tehais },
            Event::StartKyoku { kyoku: k2, oya: o2, scores: s2, tehais: t2 },
        ) => kyoku == k2 && oya == o2 && scores == s2 && forall|i: int|
            0 <= i < 4 ==> augmented_tiles(#[trigger] tehais[i], t2[i]),
        (Event::Tsumo { actor, pai }, Event::Tsumo { actor: a2, pai: p2 }) => actor == a2 && p2
            == pai.augmented(),
        (
            Event::Dahai { actor, pai, tsumogiri },
            Event::Dahai { actor: a2, pai: p2, tsumogiri: g2 },
        ) => actor == a2 && tsumogiri == g2 && p2 == pai.augmented(),
        (
            Event::Pon { actor, target, pai, consumed },
            Event::Pon { actor: a2, target: t2, pai: p2, consumed: c2 },
        ) => actor == a2 && target == t2 && p2 == pai.augmented() && augmented_tiles(consumed, c2),
        (
            Event::Daiminkan { actor, target, pai, consumed, deltas },
            Event::Daiminkan { actor: a2, target: t2, pai: p2, consumed: c2, deltas: d2 },
        ) => actor == a2 && target == t2 && p2 == pai.augmented() && augmented_tiles(consumed, c2)
            && deltas == d2,
        (
            Event::Kakan { actor, pai, consumed, deltas },
            Event::Kakan { actor: a2, pai: p2, consumed: c2, deltas: d2 },
        ) => actor == a2 && p2 == pai.augmented() && augmented_tiles(consumed, c2) && deltas == d2,
        (
            Event::Ankan { actor, consumed, deltas },
            Event::Ankan { actor: a2, consumed: c2, deltas: d2 },
        ) => actor == a2 && augmented_tiles(consumed, c2) && deltas == d2,
        (Event::StartKyoku { .. }, _) => false,
        (Event::Tsumo { .. }, _) => false,
        (Event::Dahai { .. }, _) => false,
        (Event::Pon { .. }, _) => false,
        (Event::Daiminkan { .. }, _) => false,
        (Event::Kakan { .. }, _) => false,
        (Event::Ankan { .. }, _) => false,
        _ => b == a,
    }
}

fn augment_tiles<const N: usize>(tiles: &mut [Tile; N])
    ensures
        augmented_tiles(*old(tiles), *final(tiles)),
{
    let ghost orig = *tiles;
    let mut i: usize = 0;
    while i < N
        invariant
            i <= N,
            forall|j: int| 0 <= j < i ==> #[trigger] tiles[j] == orig[j].augmented(),
            forall|j: int| i <= j < N ==> #[trigger] tiles[j] == orig[j],
        decreases N - i,
    {
        tiles[i] = tiles[i].augment();
        i += 1;
    }
}

impl Default for Event {
    fn default() -> (r: Self)
        ensures
            r is Empty,
    {
        Event::Empty
    }
}

impl Event {
    pub fn actor(&self) -> (r: Option<u8>)
        ensures
            r == spec_actor(*self),
    {
        match *self {
            Event::Tsumo { actor, .. } => Some(actor),
            Event::Dahai { actor, .. } => Some(actor),
            Event::Pon { actor, .. } => Some(actor),
            Event::Daiminkan { actor, .. } => Some(actor),
            Event::Kakan { actor, .. } => Some(actor),
            Event::Ankan { actor, .. } => Some(actor),
            Event::DingQue { actor, .. } => Some(actor),
            Event::Hora { actor, .. } => Some(actor),
            _ => None,
        }
    }

    /// Only a win (hora) is announced in the middle of a game.
    pub fn is_in_game_announce(&self) -> (r: bool)
        ensures
            r == (*self is Hora),
    {
        match self {
            Event::Hora { .. } => true,
            _ => false,
        }
    }

    /// Swaps the m and p suits of every tile in the event.
    pub fn augment(&mut self)
        ensures
            spec_augmented_event(*old(self), *final(self)),
    {
        match self {
            Event::StartKyoku { tehais, .. } => {
                let ghost orig = *tehais;
                let mut i: usize = 0;
                while i < 4
                    invariant
                        i <= 4,
                        forall|j: int|
                            0 <= j < i ==> augmented_tiles(orig[j], #[trigger] tehais[j]),
                        forall|j: int| i <= j < 4 ==> #[trigger] tehais[j] == orig[j],
                    decreases 4 - i,
                {
                    let mut row = tehais[i];
                    augment_tiles(&mut row);
                    tehais[i] = row;
                    i += 1;
                }
            },
            Event::Tsumo { pai, .. } => {
                *pai = pai.augment();
            },
            Event::Dahai { pai, .. } => {
                *pai = pai.augment();
            },
            Event::Pon { pai, consumed, .. } => {
                *pai = pai.augment();
                augment_tiles(consumed);
            },
            Event::Daiminkan { pai, consumed, .. } => {
                *pai = pai.augment();
                augment_tiles(consumed);
            },
            Event::Kakan { pai, consumed, .. } => {
                *pai = pai.augment();
                augment_tiles(consumed);
            },
            Event::Ankan { consumed, .. } => {
                augment_tiles(consumed);
            },
            _ => {},
        }
    }
}

/// A bounded number `value` in `[min, max]`, or the error that it is out of range.
pub fn bounded_u8(value: u8, min: u8, max: u8) -> (r: Result<u8, OutOfBoundError>)
    ensures
        (min <= value <= max) <==> r is Ok,
        r matches Ok(v) ==> v == value,
        r matches Err(e) ==> e == OutOfBoundError(value),
{
    if min <= value && value <= max {
        Ok(value)
    } else {
        Err(OutOfBoundError(value))
    }
}


proof fn lemma_augment_tiles_twice<const N: usize>(a: [Tile; N], b: [Tile; N], c: [Tile; N])
    requires
        augmented_tiles(a, b),
        augmented_tiles(b, c),
    ensures
        c == a,
{
    assert forall|i: int| 0 <= i < N implies c[i] == a[i] by {
        crate::tile::lemma_augment_involution(a[i]);
        assert(b[i] == a[i].augmented());
    }
    assert(c@ =~= a@);
}

/// Augmenting an event twice (swapping m and p both times) gives the event back.
pub proof fn lemma_augment_event_twice(a: Event, b: Event, c: Event)
    requires
        spec_augmented_event(a, b),
        spec_augmented_event(b, c),
    ensures
        c == a,
{
    match (a, b, c) {
        (Event::StartKyoku { tehais: ta, .. }, Event::StartKyoku { tehais: tb, .. }, Event::StartKyoku { tehais: tc, .. }) => {
            assert forall|i: int| 0 <= i < 4 implies tc@[i] == ta@[i] by {
                assert(augmented_tiles(ta[i], tb[i]));
                assert(augmented_tiles(tb[i], tc[i]));
                lemma_augment_tiles_twice(ta[i], tb[i], tc[i]);
            }
            assert(tc@ =~= ta@);
            assert(tc == ta);
        },
        (Event::Tsumo { pai, .. }, _, _) => {
            crate::tile::lemma_augment_involution(pai);
        },
        (Event::Dahai { pai, .. }, _, _) => {
            crate::tile::lemma_augment_involution(pai);
        },
        (Event::Pon { pai, consumed: ca, .. }, Event::Pon { consumed: cb, .. }, Event::Pon { consumed: cc, .. }) => {
            crate::tile::lemma_augment_involution(pai);
            lemma_augment_tiles_twice(ca, cb, cc);
        },
        (Event::Daiminkan { pai, consumed: ca, .. }, Event::Daiminkan { consumed: cb, .. }, Event::Daiminkan { consumed: cc, .. }) => {
            crate::tile::lemma_augment_involution(pai);
            lemma_augment_tiles_twice(ca, cb, cc);
        },
        (Event::Kakan { pai, consumed: ca, .. }, Event::Kakan { consumed: cb, .. }, Event::Kakan { consumed: cc, .. }) => {
            crate::tile::lemma_augment_involution(pai);
            lemma_augment_tiles_twice(ca, cb, cc);
        },
        (Event::Ankan { consumed: ca, .. }, Event::Ankan { consumed: cb, .. }, Event::Ankan { consumed: cc, .. }) => {
            lemma_augment_tiles_twice(ca, cb, cc);
        },
        _ => {},
    }
}

} // verus!
