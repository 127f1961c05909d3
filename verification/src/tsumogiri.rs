//! The tsumogiri agent: it always discards the tile it just drew.
use crate::mjai::{Event, Suit};
use crate::tile::Tile;
use vstd::prelude::*;

verus! {

/// An agent (seat `.0`) that discards every drawn tile and, when a void suit is to be named,
/// names the suit it holds fewest tiles of.
pub struct Tsumogiri(pub u8);

/// Why the agent could not act.
#[derive(Debug, Clone, Copy, PartialEq, Eq, Structural)]
pub enum TsumogiriError {
    /// A discard was asked for but no tile has been drawn.
    NoTsumo,
}

/// Tiles of suit `s` (0 Man, 1 Pin, 2 Sou) among ranks below `n`.
pub open spec fn suit_total(tehai: Seq<u8>, s: int, n: int) -> int
    decreases n,
{
    if n <= 0 {
        0
    } else {
        suit_total(tehai, s, n - 1) + tehai[9 * s + n - 1]
    }
}

/// The suit with the fewest tiles in hand, the earliest of Man, Pin, Sou on a tie.
pub open spec fn fewest_suit(tehai: Seq<u8>) -> Suit {
    let m = suit_total(tehai, 0, 9);
    let p = suit_total(tehai, 1, 9);
    let s = suit_total(tehai, 2, 9);
    if m <= p && m <= s {
        Suit::Man
    } else if p <= s {
        Suit::Pin
    } else {
        Suit::Sou
    }
}

/// What the agent answers: name the void suit, discard the drawn tile, or nothing.
pub open spec fn spec_react(
    actor: u8,
    can_ding_que: bool,
    can_discard: bool,
    tehai: Seq<u8>,
    last_self_tsumo: Option<Tile>,
) -> Result<Event, TsumogiriError> {
    if can_ding_que {
        Ok(Event::DingQue { actor, suit: fewest_suit(tehai) })
    } else if can_discard {
        match last_self_tsumo {
            Some(pai) => Ok(Event::Dahai { actor, pai, tsumogiri: true }),
            None => Err(TsumogiriError::NoTsumo),
        }
    } else {
        Ok(Event::Empty)
    }
}

fn suit_total_exec(tehai: &[u8; 27], s: usize) -> (r: u16)
    requires
        s < 3,
    ensures
        r == suit_total(tehai@, s as int, 9),
{
    let mut total: u16 = 0;
    let mut n: usize = 0;
    while n < 9
        invariant
            n <= 9,
            s < 3,
            total == suit_total(tehai@, s as int, n as int),
            total <= 255 * n,
        decreases 9 - n,
    {
        total = total + tehai[9 * s + n] as u16;
        n += 1;
    }
    total
}

impl Tsumogiri {
    /// One agent per seat in `player_ids`, in order.
    pub fn new_batched(player_ids: &[u8]) -> (r: Vec<Tsumogiri>)
        ensures
            r@.len() == player_ids@.len(),
            forall|i: int| 0 <= i < r@.len() ==> #[trigger] r@[i].0 == player_ids@[i],
    {
        let mut agents: Vec<Tsumogiri> = Vec::new();
        let mut i: usize = 0;
        while i < player_ids.len()
            invariant
                i <= player_ids@.len(),
                agents@.len() == i,
                forall|j: int| 0 <= j < i ==> #[trigger] agents@[j].0 == player_ids@[j],
            decreases player_ids.len() - i,
        {
            agents.push(Tsumogiri(player_ids[i]));
            i += 1;
        }
        agents
    }

    /// The agent's name.
    pub fn name(&self) -> (r: String)
        ensures
            r@ == "tsumogiri"@,
    {
        "tsumogiri".to_owned()
    }

    /// The agent's answer, given what it may do, its concealed hand and its last drawn tile.
    pub fn react(
        &self,
        can_ding_que: bool,
        can_discard: bool,
        tehai: &[u8; 27],
        last_self_tsumo: Option<Tile>,
    ) -> (r: Result<Event, TsumogiriError>)
        ensures
            r == spec_react(self.0, can_ding_que, can_discard, tehai@, last_self_tsumo),
    {
        if can_ding_que {
            let m = suit_total_exec(tehai, 0);
            let p = suit_total_exec(tehai, 1);
            let s = suit_total_exec(tehai, 2);
            let suit = if m <= p && m <= s {
                Suit::Man
            } else if p <= s {
                Suit::Pin
            } else {
                Suit::Sou
            };
            Ok(Event::DingQue { actor: self.0, suit })
        } else if can_discard {
            match last_self_tsumo {
                Some(pai) => Ok(Event::Dahai { actor: self.0, pai, tsumogiri: true }),
                None => Err(TsumogiriError::NoTsumo),
            }
        } else {
            Ok(Event::Empty)
        }
    }
}


proof fn lemma_suit_total_is_range_sum(tehai: Seq<u8>, s: int, n: int)
    ensures
        suit_total(tehai, s, n) == crate::grp::range_sum(tehai, 9 * s, n),
    decreases n,
{
    if n > 0 {
        lemma_suit_total_is_range_sum(tehai, s, n - 1);
    }
}

/// Asked for its void suit, the agent names a suit holding no more tiles than any of the three
/// suits (counted over the nine kinds of each), and on a tie the earliest of Man, Pin, Sou:
/// every suit before the named one holds more tiles.
pub proof fn lemma_void_suit_is_fewest(
    actor: u8,
    can_discard: bool,
    tehai: Seq<u8>,
    last_self_tsumo: Option<Tile>,
)
    ensures
        spec_react(actor, true, can_discard, tehai, last_self_tsumo) matches Ok(Event::DingQue { actor: a, suit })
            && a == actor && (forall|s: int|
            0 <= s < 3 ==> #[trigger] crate::grp::range_sum(tehai, 9 * s, 9) >= crate::grp::range_sum(
                tehai,
                9 * crate::ding_que::spec_suit_id(suit),
                9,
            )) && (forall|s: int|
            0 <= s < crate::ding_que::spec_suit_id(suit) ==> #[trigger] crate::grp::range_sum(tehai, 9 * s, 9)
                > crate::grp::range_sum(tehai, 9 * crate::ding_que::spec_suit_id(suit), 9)),
{
    lemma_suit_total_is_range_sum(tehai, 0, 9);
    lemma_suit_total_is_range_sum(tehai, 1, 9);
    lemma_suit_total_is_range_sum(tehai, 2, 9);
}

} // verus!
