//! The actions a seat may take next, and whether an action is one of them.
use crate::ding_que::{discard_allowed, spec_discard_allowed};
use crate::mjai::{Event, spec_actor};
use crate::state::player_state::PlayerState;
use crate::tile::Tile;
use vstd::prelude::*;

verus! {

/// Which actions the rules allow the seat after the last event, and whose tile it would act
/// on.
#[derive(Debug, Clone, Copy, PartialEq, Eq, Structural)]
pub struct ActionCandidate {
    pub can_discard: bool,
    pub can_pon: bool,
    pub can_daiminkan: bool,
    pub can_kakan: bool,
    pub can_ankan: bool,
    pub can_tsumo_agari: bool,
    pub can_ron_agari: bool,
    pub can_ding_que: bool,
    pub target_actor: u8,
}

/// No action allowed, target seat 0.
pub open spec fn no_action() -> ActionCandidate {
    ActionCandidate {
        can_discard: false,
        can_pon: false,
        can_daiminkan: false,
        can_kakan: false,
        can_ankan: false,
        can_tsumo_agari: false,
        can_ron_agari: false,
        can_ding_que: false,
        target_actor: 0,
    }
}

impl Default for ActionCandidate {
    fn default() -> (r: Self)
        ensures
            r == no_action(),
    {
        ActionCandidate {
            can_discard: false,
            can_pon: false,
            can_daiminkan: false,
            can_kakan: false,
            can_ankan: false,
            can_tsumo_agari: false,
            can_ron_agari: false,
            can_ding_que: false,
            target_actor: 0,
        }
    }
}

impl ActionCandidate {
    /// Some kan is allowed.
    pub open spec fn spec_can_kan(self) -> bool {
        self.can_daiminkan || self.can_kakan || self.can_ankan
    }

    /// Some win is allowed.
    pub open spec fn spec_can_agari(self) -> bool {
        self.can_tsumo_agari || self.can_ron_agari
    }

    /// The seat may decline: a pon, an open kan or a ron is on offer.
    pub open spec fn spec_can_pass(self) -> bool {
        self.can_pon || self.can_daiminkan || self.can_ron_agari
    }

    /// Some action at all is allowed.
    pub open spec fn spec_can_act(self) -> bool {
        self.can_discard || self.can_pon || self.spec_can_kan() || self.spec_can_agari()
            || self.can_ding_que
    }

    pub fn can_kan(&self) -> (r: bool)
        ensures
            r == self.spec_can_kan(),
    {
        self.can_daiminkan || self.can_kakan || self.can_ankan
    }

    pub fn can_agari(&self) -> (r: bool)
        ensures
            r == self.spec_can_agari(),
    {
        self.can_tsumo_agari || self.can_ron_agari
    }

    pub fn can_pass(&self) -> (r: bool)
        ensures
            r == self.spec_can_pass(),
    {
        self.can_pon || self.can_daiminkan || self.can_ron_agari
    }

    pub fn can_act(&self) -> (r: bool)
        ensures
            r == self.spec_can_act(),
    {
        self.can_discard || self.can_pon || self.can_kan() || self.can_agari() || self.can_ding_que
    }
}

/// Why an action is not allowed to the seat now.
#[derive(Debug, Clone, Copy, PartialEq, Eq, Structural)]
pub enum ReactionError {
    /// The seat has won already and takes no more actions.
    AlreadyWon,
    /// `none` was answered where an action is required.
    CannotPass,
    /// The action is not this seat's.
    ActorMismatch,
    /// The event is not an action of a seat.
    NoActor,
    CannotDiscard,
    /// The concealed hand lacks tiles the action uses: the tile kind, the tiles needed and
    /// the tiles held.
    NotEnoughTiles { tile_id: usize, need: u8, have: u8 },
    /// No void suit is named yet.
    DiscardBeforeDingQue,
    /// The tile may not be discarded now (for instance the tile just called).
    ForbiddenTile,
    /// A tile of the void suit is held and must go first.
    DingQueRuleViolated,
    /// A discard marked as the drawn tile is not the drawn tile.
    CannotTsumogiri,
    /// A discard marked as the drawn tile when nothing was drawn.
    TsumogiriWithoutTsumo,
    /// A call on one's own tile.
    CallFromSelf,
    /// The call names another seat than the one whose tile is on offer.
    TargetMismatch,
    /// The called tile is not the last discard.
    NotLastKawaTile,
    CannotPon,
    CannotDaiminkan,
    /// The tiles taken from the hand are not all the called tile.
    ConsumedMismatch,
    CannotKakan,
    /// The tile is not one the seat may add to a pon.
    NotKakanCandidate,
    CannotAnkan,
    /// The tile is not one the seat may form a concealed kan with.
    NotAnkanCandidate,
    CannotTsumoAgari,
    CannotRonAgari,
    CannotDingQue,
    /// The event is not an action.
    UnexpectedAction,
}

/// Tiles of kind `k` among `tiles`.
pub open spec fn kind_count(tiles: Seq<Tile>, k: int) -> int
    decreases tiles.len(),
{
    if tiles.len() == 0 {
        0
    } else {
        kind_count(tiles.drop_last(), k) + if tiles.last()@ == k {
            1int
        } else {
            0int
        }
    }
}

/// The first kind, from `k` on, of which `tiles` holds more than `tehai`.
pub open spec fn first_short(tehai: [u8; 27], tiles: Seq<Tile>, k: int) -> Option<int>
    decreases 27 - k,
{
    if k >= 27 {
        None
    } else if kind_count(tiles, k) > 0 && tehai[k] < kind_count(tiles, k) {
        Some(k)
    } else {
        first_short(tehai, tiles, k + 1)
    }
}

/// Whether the concealed hand holds `tiles`: the shortage of the lowest kind it lacks.
pub open spec fn spec_tiles_in_hand(tehai: [u8; 27], tiles: Seq<Tile>) -> Result<(), ReactionError> {
    match first_short(tehai, tiles, 0) {
        Some(k) => Err(
            ReactionError::NotEnoughTiles {
                tile_id: k as usize,
                need: kind_count(tiles, k) as u8,
                have: tehai[k],
            },
        ),
        None => Ok(()),
    }
}

/// Every tile of `tiles` is `t`.
pub open spec fn all_same(tiles: Seq<Tile>, t: Tile) -> bool {
    forall|i: int| 0 <= i < tiles.len() ==> tiles[i] == t
}

/// The checks of an action before its tiles are looked for in the hand; `Ok` carries the
/// tiles to look for.
pub open spec fn pre_tiles(s: PlayerState, a: Event) -> Result<Seq<Tile>, ReactionError> {
    let cans = s.last_cans;
    match a {
        Event::Dahai { pai, .. } => if !cans.can_discard {
            Err(ReactionError::CannotDiscard)
        } else {
            Ok(seq![pai])
        },
        Event::Pon { actor, target, pai, consumed } => if target == actor {
            Err(ReactionError::CallFromSelf)
        } else if target != cans.target_actor {
            Err(ReactionError::TargetMismatch)
        } else if s.last_kawa_tile != Some(pai) {
            Err(ReactionError::NotLastKawaTile)
        } else if !cans.can_pon {
            Err(ReactionError::CannotPon)
        } else if !all_same(consumed@, pai) {
            Err(ReactionError::ConsumedMismatch)
        } else {
            Ok(consumed@)
        },
        Event::Daiminkan { actor, target, pai, consumed, .. } => if target == actor {
            Err(ReactionError::CallFromSelf)
        } else if target != cans.target_actor {
            Err(ReactionError::TargetMismatch)
        } else if s.last_kawa_tile != Some(pai) {
            Err(ReactionError::NotLastKawaTile)
        } else if !cans.can_daiminkan {
            Err(ReactionError::CannotDaiminkan)
        } else if !all_same(consumed@, pai) {
            Err(ReactionError::ConsumedMismatch)
        } else {
            Ok(consumed@)
        },
        Event::Kakan { pai, .. } => if !cans.can_kakan {
            Err(ReactionError::CannotKakan)
        } else if !s.kakan_candidates@.contains(pai) {
            Err(ReactionError::NotKakanCandidate)
        } else {
            Ok(seq![pai])
        },
        Event::Ankan { consumed, .. } => if !cans.can_ankan {
            Err(ReactionError::CannotAnkan)
        } else if !s.ankan_candidates@.contains(consumed[0]) {
            Err(ReactionError::NotAnkanCandidate)
        } else if !all_same(consumed@, consumed[0]) {
            Err(ReactionError::ConsumedMismatch)
        } else {
            Ok(consumed@)
        },
        Event::Hora { target, .. } => if target == s.player_id {
            if !cans.can_tsumo_agari {
                Err(ReactionError::CannotTsumoAgari)
            } else {
                Ok(Seq::empty())
            }
        } else if !cans.can_ron_agari {
            Err(ReactionError::CannotRonAgari)
        } else if target != cans.target_actor {
            Err(ReactionError::TargetMismatch)
        } else {
            Ok(Seq::empty())
        },
        Event::DingQue { .. } => if !cans.can_ding_que {
            Err(ReactionError::CannotDingQue)
        } else {
            Ok(Seq::empty())
        },
        _ => Err(ReactionError::UnexpectedAction),
    }
}

/// The checks of a discard after its tile is found in the hand.
pub open spec fn post_tiles(s: PlayerState, a: Event) -> Result<(), ReactionError> {
    match a {
        Event::Dahai { pai, tsumogiri, .. } => if s.ding_que is None {
            Err(ReactionError::DiscardBeforeDingQue)
        } else if s.forbidden_tiles[pai@ as int] {
            Err(ReactionError::ForbiddenTile)
        } else if !spec_discard_allowed(pai@ as int, s.tehai, s.ding_que) {
            Err(ReactionError::DingQueRuleViolated)
        } else if tsumogiri {
            match s.last_self_tsumo {
                Some(t) => if t != pai {
                    Err(ReactionError::CannotTsumogiri)
                } else {
                    Ok(())
                },
                None => Err(ReactionError::TsumogiriWithoutTsumo),
            }
        } else {
            Ok(())
        },
        _ => Ok(()),
    }
}

/// Whether the checks reach the hand with `a`: the seat has not won, `a` is its own action.
pub open spec fn reaches_checks(s: PlayerState, a: Event) -> bool {
    !s.has_agari && !(a is Empty) && spec_actor(a) == Some(s.player_id)
}

/// Whether `a` is an action the seat may take now (see `ReactionError`).
pub open spec fn spec_validate_reaction(s: PlayerState, a: Event) -> Result<(), ReactionError> {
    if s.has_agari {
        Err(ReactionError::AlreadyWon)
    } else if a is Empty {
        if !s.last_cans.spec_can_act() || s.last_cans.spec_can_pass() {
            Ok(())
        } else {
            Err(ReactionError::CannotPass)
        }
    } else {
        match spec_actor(a) {
            None => Err(ReactionError::NoActor),
            Some(actor) => if actor != s.player_id {
                Err(ReactionError::ActorMismatch)
            } else {
                match pre_tiles(s, a) {
                    Err(e) => Err(e),
                    Ok(tiles) => match spec_tiles_in_hand(s.tehai, tiles) {
                        Err(e) => Err(e),
                        Ok(()) => post_tiles(s, a),
                    },
                }
            },
        }
    }
}

/// The tiles looked for in the hand are real tiles (not `?`).
pub open spec fn tiles_known(tiles: Seq<Tile>) -> bool {
    forall|i: int| 0 <= i < tiles.len() ==> tiles[i]@ < 27
}

proof fn lemma_kind_count_bound(tiles: Seq<Tile>, k: int)
    ensures
        0 <= kind_count(tiles, k) <= tiles.len(),
    decreases tiles.len(),
{
    if tiles.len() > 0 {
        lemma_kind_count_bound(tiles.drop_last(), k);
    }
}

proof fn lemma_nothing_short(tehai: [u8; 27], k: int)
    ensures
        first_short(tehai, Seq::<Tile>::empty(), k) is None,
    decreases 27 - k,
{
    if k < 27 {
        lemma_nothing_short(tehai, k + 1);
    }
}

/// Counts the tiles of each kind in `tiles`, known tiles only.
fn count_kinds(tiles: &[Tile]) -> (r: [u8; 27])
    requires
        tiles_known(tiles@),
        tiles@.len() <= 4,
    ensures
        forall|k: int| 0 <= k < 27 ==> r[k] == kind_count(tiles@, k),
{
    let mut needed: [u8; 27] = [0u8; 27];
    let mut i: usize = 0;
    while i < tiles.len()
        invariant
            i <= tiles@.len() <= 4,
            tiles_known(tiles@),
            forall|k: int| 0 <= k < 27 ==> needed[k] == kind_count(tiles@.subrange(0, i as int), k),
        decreases tiles.len() - i,
    {
        let t = tiles[i].as_usize();
        proof {
            assert(tiles@.subrange(0, i + 1).drop_last() =~= tiles@.subrange(0, i as int));
            lemma_kind_count_bound(tiles@.subrange(0, i as int), t as int);
        }
        needed[t] = needed[t] + 1;
        i += 1;
    }
    assert(tiles@.subrange(0, tiles@.len() as int) =~= tiles@);
    needed
}

fn tiles_in_hand(tehai: &[u8; 27], tiles: &[Tile]) -> (r: Result<(), ReactionError>)
    requires
        tiles_known(tiles@),
        tiles@.len() <= 4,
    ensures
        r == spec_tiles_in_hand(*tehai, tiles@),
{
    let needed = count_kinds(tiles);
    let mut tid: usize = 0;
    while tid < 27
        invariant
            tid <= 27,
            forall|k: int| 0 <= k < 27 ==> needed[k] == kind_count(tiles@, k),
            first_short(*tehai, tiles@, 0) == first_short(*tehai, tiles@, tid as int),
        decreases 27 - tid,
    {
        if needed[tid] > 0 && tehai[tid] < needed[tid] {
            return Err(ReactionError::NotEnoughTiles { tile_id: tid, need: needed[tid], have: tehai[tid] });
        }
        tid += 1;
    }
    Ok(())
}

fn tile_in(tiles: &[Tile], t: Tile) -> (r: bool)
    ensures
        r == tiles@.contains(t),
{
    let mut i: usize = 0;
    while i < tiles.len()
        invariant
            i <= tiles@.len(),
            forall|j: int| 0 <= j < i ==> tiles@[j] != t,
        decreases tiles.len() - i,
    {
        if tiles[i] == t {
            return true;
        }
        i += 1;
    }
    false
}

fn all_equal(tiles: &[Tile], t: Tile) -> (r: bool)
    ensures
        r == all_same(tiles@, t),
{
    let mut i: usize = 0;
    while i < tiles.len()
        invariant
            i <= tiles@.len(),
            forall|j: int| 0 <= j < i ==> tiles@[j] == t,
        decreases tiles.len() - i,
    {
        if tiles[i] != t {
            return false;
        }
        i += 1;
    }
    true
}

impl PlayerState {
    /// Whether `action` is one this seat may take now (see `spec_validate_reaction`). The
    /// tiles an action takes from the hand must be real tiles whenever the checks get that
    /// far.
    pub fn validate_reaction(&self, action: &Event) -> (r: Result<(), ReactionError>)
        requires
            reaches_checks(*self, *action) ==> match pre_tiles(*self, *action) {
                Ok(tiles) => tiles_known(tiles),
                Err(_) => true,
            },
        ensures
            r == spec_validate_reaction(*self, *action),
    {
        if self.has_agari {
            return Err(ReactionError::AlreadyWon);
        }
        let cans = self.last_cans;
        if let Event::Empty = action {
            if !cans.can_act() || cans.can_pass() {
                return Ok(());
            }
            return Err(ReactionError::CannotPass);
        }
        match action.actor() {
            Some(actor) => {
                if actor != self.player_id {
                    return Err(ReactionError::ActorMismatch);
                }
            },
            None => return Err(ReactionError::NoActor),
        }
        match action {
            Event::Dahai { pai, tsumogiri, .. } => {
                let pai = *pai;
                if !cans.can_discard {
                    return Err(ReactionError::CannotDiscard);
                }
                let one = [pai];
                proof {
                    assert(one@ =~= seq![pai]);
                }
                tiles_in_hand(&self.tehai, &one)?;
                if self.ding_que.is_none() {
                    return Err(ReactionError::DiscardBeforeDingQue);
                }
                let tile_id = pai.as_usize();
                if self.forbidden_tiles[tile_id] {
                    return Err(ReactionError::ForbiddenTile);
                }
                if !discard_allowed(tile_id, &self.tehai, self.ding_que) {
                    return Err(ReactionError::DingQueRuleViolated);
                }
                if *tsumogiri {
                    match self.last_self_tsumo {
                        Some(t) => {
                            if t != pai {
                                return Err(ReactionError::CannotTsumogiri);
                            }
                        },
                        None => return Err(ReactionError::TsumogiriWithoutTsumo),
                    }
                }
                Ok(())
            },
            Event::Pon { actor, target, pai, consumed } => {
                if *target == *actor {
                    return Err(ReactionError::CallFromSelf);
                }
                if *target != cans.target_actor {
                    return Err(ReactionError::TargetMismatch);
                }
                match self.last_kawa_tile {
                    Some(t) => {
                        if t != *pai {
                            return Err(ReactionError::NotLastKawaTile);
                        }
                    },
                    None => return Err(ReactionError::NotLastKawaTile),
                }
                if !cans.can_pon {
                    return Err(ReactionError::CannotPon);
                }
                if !all_equal(consumed, *pai) {
                    return Err(ReactionError::ConsumedMismatch);
                }
                tiles_in_hand(&self.tehai, consumed)
            },
            Event::Daiminkan { actor, target, pai, consumed, .. } => {
                if *target == *actor {
                    return Err(ReactionError::CallFromSelf);
                }
                if *target != cans.target_actor {
                    return Err(ReactionError::TargetMismatch);
                }
                match self.last_kawa_tile {
                    Some(t) => {
                        if t != *pai {
                            return Err(ReactionError::NotLastKawaTile);
                        }
                    },
                    None => return Err(ReactionError::NotLastKawaTile),
                }
                if !cans.can_daiminkan {
                    return Err(ReactionError::CannotDaiminkan);
                }
                if !all_equal(consumed, *pai) {
                    return Err(ReactionError::ConsumedMismatch);
                }
                tiles_in_hand(&self.tehai, consumed)
            },
            Event::Kakan { pai, .. } => {
                if !cans.can_kakan {
                    return Err(ReactionError::CannotKakan);
                }
                if !tile_in(self.kakan_candidates.as_slice(), *pai) {
                    return Err(ReactionError::NotKakanCandidate);
                }
                let one = [*pai];
                proof {
                    assert(one@ =~= seq![*pai]);
                }
                tiles_in_hand(&self.tehai, &one)
            },
            Event::Ankan { consumed, .. } => {
                if !cans.can_ankan {
                    return Err(ReactionError::CannotAnkan);
                }
                let tile = consumed[0];
                if !tile_in(self.ankan_candidates.as_slice(), tile) {
                    return Err(ReactionError::NotAnkanCandidate);
                }
                if !all_equal(consumed, tile) {
                    return Err(ReactionError::ConsumedMismatch);
                }
                tiles_in_hand(&self.tehai, consumed)
            },
            Event::Hora { target, .. } => {
                if *target == self.player_id {
                    if !cans.can_tsumo_agari {
                        return Err(ReactionError::CannotTsumoAgari);
                    }
                } else {
                    if !cans.can_ron_agari {
                        return Err(ReactionError::CannotRonAgari);
                    }
                    if *target != cans.target_actor {
                        return Err(ReactionError::TargetMismatch);
                    }
                }
                proof {
                    lemma_nothing_short(self.tehai, 0);
                }
                Ok(())
            },
            Event::DingQue { .. } => {
                if !cans.can_ding_que {
                    return Err(ReactionError::CannotDingQue);
                }
                proof {
                    lemma_nothing_short(self.tehai, 0);
                }
                Ok(())
            },
            _ => Err(ReactionError::UnexpectedAction),
        }
    }
}

} // verus!
