//! Tiles of Bloody Battle mahjong: three suits (m, p, s) of nine ranks each,
//! plus one id for an unknown tile. There are no honors and no red fives.
use vstd::prelude::*;
use vstd::string::*;

verus! {

/// Number of tile kinds (3 suits x 9 ranks).
pub const TILE_KINDS: usize = 27;

/// Id of the unknown tile `?`.
pub const UNKNOWN_ID: u8 = 27;

/// A tile id: 0..=8 are 1m..9m, 9..=17 are 1p..9p, 18..=26 are 1s..9s, 27 is `?`.
#[derive(Clone, Copy, PartialEq, Eq, Hash, Debug, Structural)]
pub struct Tile(u8);

/// Why a value is not a tile.
#[derive(Debug)]
pub enum InvalidTile {
    Number(usize),
    String(String),
}

impl View for Tile {
    type V = u8;

    closed spec fn view(&self) -> u8 {
        self.0
    }
}

/// The suit character of a suit index (0 = m, 1 = p, 2 = s).
pub open spec fn suit_char(kind: int) -> char {
    if kind == 0 {
        'm'
    } else if kind == 1 {
        'p'
    } else {
        's'
    }
}

/// The digit character of a rank index (0 = '1', ..., 8 = '9').
pub open spec fn digit_char(num: int) -> char {
    ((num + 49) as u32) as char
}

/// The mjai name of a tile id: a rank digit and a suit letter, or `?`.
pub open spec fn tile_name(id: int) -> Seq<char> {
    if 0 <= id < 27 {
        seq![digit_char(id % 9), suit_char(id / 9)]
    } else {
        seq!['?']
    }
}

/// Discard priority of a tile id: terminals are highest, fives lowest, `?` is 0.
pub open spec fn spec_discard_priority(id: u8) -> int {
    if id < 27 {
        let num = id % 9;
        if num >= 4 {
            num - 4 + 2
        } else {
            4 - num + 2
        }
    } else {
        0
    }
}

/// The successor of a tile within its suit, wrapping 9 to 1; `?` stays `?`.
pub open spec fn spec_next(id: int) -> int {
    if id >= 27 {
        id
    } else {
        (id / 9) * 9 + (id % 9 + 1) % 9
    }
}

/// The predecessor of a tile within its suit, wrapping 1 to 9; `?` stays `?`.
pub open spec fn spec_prev(id: int) -> int {
    if id >= 27 {
        id
    } else {
        (id / 9) * 9 + (id % 9 + 8) % 9
    }
}

/// Swaps the m and p suits; s and `?` stay.
pub open spec fn spec_augment(id: int) -> int {
    if id >= 27 {
        id
    } else if id / 9 == 0 {
        id + 9
    } else if id / 9 == 1 {
        id - 9
    } else {
        id
    }
}

/// Terminal tiles (rank 1 or 9).
pub open spec fn spec_is_yaokyuu(id: int) -> bool {
    0 <= id < 27 && (id % 9 == 0 || id % 9 == 8)
}

/// The tile with id `id`.
pub closed spec fn spec_tile(id: u8) -> Tile {
    Tile(id)
}

/// `spec_tile(id)` has id `id`.
pub broadcast proof fn lemma_spec_tile(id: u8)
    ensures
        #[trigger] spec_tile(id)@ == id,
{
}

/// A tile is the tile of its id.
pub broadcast proof fn lemma_tile_of_view(t: Tile)
    ensures
        #[trigger] spec_tile(t@) == t,
{
}

impl Tile {
    /// A tile with the given id, unchecked.
    pub fn new_unchecked(id: u8) -> (t: Self)
        ensures
            t@ == id,
            t == spec_tile(id),
    {
        Tile(id)
    }

    /// The tile with id `v` if `v` is a tile id.
    fn from_u8(v: u8) -> (r: Result<Self, InvalidTile>)
        ensures
            v < 28 <==> r is Ok,
            r matches Ok(t) ==> t@ == v,
            r matches Err(e) ==> e == InvalidTile::Number(v as usize),
    {
        Self::from_usize(v as usize)
    }

    /// The tile with id `v` if `v` is a tile id.
    fn from_usize(v: usize) -> (r: Result<Self, InvalidTile>)
        ensures
            v < 28 <==> r is Ok,
            r matches Ok(t) ==> t@ == v,
            r matches Err(e) ==> e == InvalidTile::Number(v),
    {
        if v >= 28 {
            Err(InvalidTile::Number(v))
        } else {
            Ok(Tile(v as u8))
        }
    }

    pub fn as_u8(self) -> (r: u8)
        ensures
            r == self@,
    {
        self.0
    }

    pub fn as_usize(self) -> (r: usize)
        ensures
            r == self@,
    {
        self.0 as usize
    }

    /// There are no red fives: the tile itself.
    pub fn deaka(self) -> (r: Self)
        ensures
            r == self,
    {
        self
    }

    /// There are no red fives: the tile itself.
    pub fn akaize(self) -> (r: Self)
        ensures
            r == self,
    {
        self
    }

    /// There are no red fives.
    pub fn is_aka(self) -> (r: bool)
        ensures
            !r,
    {
        false
    }

    /// There are no honors.
    pub fn is_jihai(self) -> (r: bool)
        ensures
            !r,
    {
        false
    }

    pub fn is_yaokyuu(self) -> (r: bool)
        ensures
            r == spec_is_yaokyuu(self@ as int),
    {
        self.0 < 27 && (self.0 % 9 == 0 || self.0 % 9 == 8)
    }

    pub fn is_unknown(self) -> (r: bool)
        ensures
            r == (self@ >= 27),
    {
        self.0 >= UNKNOWN_ID
    }

    pub fn next(self) -> (r: Self)
        ensures
            r@ == spec_next(self@ as int),
    {
        if self.is_unknown() {
            return self;
        }
        let kind = self.0 / 9;
        let num = self.0 % 9;
        Tile(kind * 9 + (num + 1) % 9)
    }

    pub fn prev(self) -> (r: Self)
        ensures
            r@ == spec_prev(self@ as int),
    {
        if self.is_unknown() {
            return self;
        }
        let kind = self.0 / 9;
        let num = self.0 % 9;
        Tile(kind * 9 + (num + 9 - 1) % 9)
    }

    /// The tile with id `spec_augment(self@)`.
    pub closed spec fn augmented(self) -> Tile {
        Tile(spec_augment(self.0 as int) as u8)
    }

    pub fn augment(self) -> (r: Self)
        ensures
            r@ == spec_augment(self@ as int),
            r == self.augmented(),
    {
        if self.is_unknown() {
            return self;
        }
        let tid = self.0;
        let kind = tid / 9;
        if kind == 0 {
            Tile(tid + 9)
        } else if kind == 1 {
            Tile(tid - 9)
        } else {
            self
        }
    }

    /// The discard priority of this tile (see `spec_discard_priority`).
    fn discard_priority(self) -> (r: u8)
        ensures
            r == spec_discard_priority(self@),
    {
        if self.0 >= 27 {
            0
        } else {
            let num = self.0 % 9;
            if num >= 4 {
                num - 4 + 2
            } else {
                4 - num + 2
            }
        }
    }

    /// Orders by discard priority, then by id in reverse; `Equal` iff the tiles are equal.
    pub fn cmp_discard_priority(self, other: Self) -> (r: std::cmp::Ordering)
        requires
            self@ < 28,
            other@ < 28,
        ensures
            (r == std::cmp::Ordering::Less) <==> (spec_discard_priority(self@)
                < spec_discard_priority(other@) || (spec_discard_priority(self@)
                == spec_discard_priority(other@) && other@ < self@)),
            (r == std::cmp::Ordering::Equal) <==> self == other,
            (r == std::cmp::Ordering::Greater) <==> (spec_discard_priority(self@)
                > spec_discard_priority(other@) || (spec_discard_priority(self@)
                == spec_discard_priority(other@) && other@ > self@)),
    {
        let l = self.discard_priority();
        let r = other.discard_priority();
        if l < r {
            std::cmp::Ordering::Less
        } else if l > r {
            std::cmp::Ordering::Greater
        } else if other.0 < self.0 {
            std::cmp::Ordering::Less
        } else if other.0 > self.0 {
            std::cmp::Ordering::Greater
        } else {
            std::cmp::Ordering::Equal
        }
    }
}

/// The mjai name of a tile id (`?` for ids past the last kind).
fn name_str(id: u8) -> (r: &'static str)
    ensures
        r@ == tile_name(id as int),
{
    match id {
        0 => {
            proof {
                reveal_strlit("1m");
            }
            "1m"
        }
        1 => {
            proof {
                reveal_strlit("2m");
            }
            "2m"
        }
        2 => {
            proof {
                reveal_strlit("3m");
            }
            "3m"
        }
        3 => {
            proof {
                reveal_strlit("4m");
            }
            "4m"
        }
        4 => {
            proof {
                reveal_strlit("5m");
            }
            "5m"
        }
        5 => {
            proof {
                reveal_strlit("6m");
            }
            "6m"
        }
        6 => {
            proof {
                reveal_strlit("7m");
            }
            "7m"
        }
        7 => {
            proof {
                reveal_strlit("8m");
            }
            "8m"
        }
        8 => {
            proof {
                reveal_strlit("9m");
            }
            "9m"
        }
        9 => {
            proof {
                reveal_strlit("1p");
            }
            "1p"
        }
        10 => {
            proof {
                reveal_strlit("2p");
            }
            "2p"
        }
        11 => {
            proof {
                reveal_strlit("3p");
            }
            "3p"
        }
        12 => {
            proof {
                reveal_strlit("4p");
            }
            "4p"
        }
        13 => {
            proof {
                reveal_strlit("5p");
            }
            "5p"
        }
        14 => {
            proof {
                reveal_strlit("6p");
            }
            "6p"
        }
        15 => {
            proof {
                reveal_strlit("7p");
            }
            "7p"
        }
        16 => {
            proof {
                reveal_strlit("8p");
            }
            "8p"
        }
        17 => {
            proof {
                reveal_strlit("9p");
            }
            "9p"
        }
        18 => {
            proof {
                reveal_strlit("1s");
            }
            "1s"
        }
        19 => {
            proof {
                reveal_strlit("2s");
            }
            "2s"
        }
        20 => {
            proof {
                reveal_strlit("3s");
            }
            "3s"
        }
        21 => {
            proof {
                reveal_strlit("4s");
            }
            "4s"
        }
        22 => {
            proof {
                reveal_strlit("5s");
            }
            "5s"
        }
        23 => {
            proof {
                reveal_strlit("6s");
            }
            "6s"
        }
        24 => {
            proof {
                reveal_strlit("7s");
            }
            "7s"
        }
        25 => {
            proof {
                reveal_strlit("8s");
            }
            "8s"
        }
        26 => {
            proof {
                reveal_strlit("9s");
            }
            "9s"
        }
        _ => {
            proof {
                reveal_strlit("?");
            }
            "?"
        }
    }
}

/// The digit 1..=9 of a rank character, if it is one.
fn rank_of_char(c: char) -> (r: Option<u8>)
    ensures
        r matches Some(n) ==> n < 9 && digit_char(n as int) == c,
        r is None ==> forall|n: int| 0 <= n < 9 ==> digit_char(n) != c,
{
    if '1' <= c && c <= '9' {
        let n = (c as u32 - 49) as u8;
        Some(n)
    } else {
        None
    }
}

/// The suit index of a suit character, if it is one.
fn kind_of_char(c: char) -> (r: Option<u8>)
    ensures
        r matches Some(k) ==> k < 3 && suit_char(k as int) == c,
        r is None ==> forall|k: int| 0 <= k < 3 ==> suit_char(k) != c,
{
    if c == 'm' {
        Some(0)
    } else if c == 'p' {
        Some(1)
    } else if c == 's' {
        Some(2)
    } else {
        None
    }
}

impl Tile {
    /// The mjai name of the tile, e.g. `5p` or `?`.
    pub fn to_string(&self) -> (r: String)
        ensures
            r@ == tile_name(self@ as int),
    {
        name_str(self.0).to_owned()
    }

    /// Parses the mjai name of a tile.
    fn from_mjai_str(s: &str) -> (r: Result<Self, InvalidTile>)
        ensures
            (exists|id: int| 0 <= id < 28 && tile_name(id) == s@) <==> r is Ok,
            r matches Ok(t) ==> t@ < 28 && tile_name(t@ as int) == s@,
            r matches Err(e) ==> e matches InvalidTile::String(x) && x@ == s@,
    {
        let len = s.unicode_len();
        if len == 1 {
            let c = s.get_char(0);
            if c == '?' {
                assert(tile_name(27) =~= s@);
                return Ok(Tile(27));
            }
        } else if len == 2 {
            let c0 = s.get_char(0);
            let c1 = s.get_char(1);
            match (rank_of_char(c0), kind_of_char(c1)) {
                (Some(n), Some(k)) => {
                    let id = k * 9 + n;
                    assert(tile_name(id as int) =~= s@);
                    return Ok(Tile(id));
                },
                _ => {
                    assert forall|id: int| 0 <= id < 28 implies tile_name(id) != s@ by {
                        if id < 27 {
                            assert(tile_name(id)[0] == digit_char(id % 9));
                            assert(tile_name(id)[1] == suit_char(id / 9));
                        }
                    }
                },
            }
        }
        Err(InvalidTile::String(s.to_owned()))
    }
}

impl Default for Tile {
    fn default() -> (r: Self)
        ensures
            r@ == UNKNOWN_ID,
    {
        Tile(UNKNOWN_ID)
    }
}

impl TryFrom<u8> for Tile {
    type Error = InvalidTile;

    fn try_from(v: u8) -> Result<Self, Self::Error> {
        Self::from_u8(v)
    }
}

impl vstd::std_specs::convert::TryFromSpecImpl<u8> for Tile {
    open spec fn obeys_try_from_spec() -> bool {
        true
    }

    closed spec fn try_from_spec(v: u8) -> Result<Self, InvalidTile> {
        if v < 28 {
            Ok(Tile(v))
        } else {
            Err(InvalidTile::Number(v as usize))
        }
    }
}

impl vstd::std_specs::convert::TryFromSpecImpl<usize> for Tile {
    open spec fn obeys_try_from_spec() -> bool {
        true
    }

    closed spec fn try_from_spec(v: usize) -> Result<Self, InvalidTile> {
        if v < 28 {
            Ok(Tile(v as u8))
        } else {
            Err(InvalidTile::Number(v))
        }
    }
}

impl TryFrom<usize> for Tile {
    type Error = InvalidTile;

    fn try_from(v: usize) -> Result<Self, Self::Error> {
        Self::from_usize(v)
    }
}

impl std::str::FromStr for Tile {
    type Err = InvalidTile;

    fn from_str(s: &str) -> (r: Result<Self, Self::Err>)
        ensures
            (exists|id: int| 0 <= id < 28 && tile_name(id) == s@) <==> r is Ok,
            r matches Ok(t) ==> t@ < 28 && tile_name(t@ as int) == s@,
            r matches Err(e) ==> e matches InvalidTile::String(x) && x@ == s@,
    {
        Self::from_mjai_str(s)
    }
}


/// `next` and `prev` undo each other on every tile (and both leave `?` as it is).
pub proof fn lemma_next_prev_inverse(t: Tile)
    ensures
        spec_prev(spec_next(t@ as int)) == t@ as int,
        spec_next(spec_prev(t@ as int)) == t@ as int,
{
}

/// Swapping the m and p suits twice gives the tile back.
pub proof fn lemma_augment_involution(t: Tile)
    ensures
        spec_augment(spec_augment(t@ as int)) == t@ as int,
        t.augmented().augmented() == t,
{
    assert(t.augmented()@ == spec_augment(t@ as int));
}

/// Distinct tiles have distinct mjai names, so a printed tile parses back to itself.
pub proof fn lemma_tile_name_injective(a: Tile, b: Tile)
    requires
        a@ < 28,
        b@ < 28,
        tile_name(a@ as int) == tile_name(b@ as int),
    ensures
        a == b,
{
    if a@ < 27 && b@ < 27 {
        assert(tile_name(a@ as int)[0] == tile_name(b@ as int)[0]);
        assert(tile_name(a@ as int)[1] == tile_name(b@ as int)[1]);
        assert(digit_char(a@ as int % 9) == digit_char(b@ as int % 9));
        assert(a@ as int % 9 == b@ as int % 9);
        assert(a@ as int / 9 == b@ as int / 9);
    } else if a@ < 27 || b@ < 27 {
        assert(tile_name(a@ as int).len() != tile_name(b@ as int).len());
    }
}

} // verus!
