//! Winning hands and their fan (番) count.
use crate::ding_que::{can_agari_with_fuuro, spec_has_ding_que_tiles_in_hand};
use crate::division::{divisions, has_division, is_division, division_count};
use crate::ding_que::has_suit_tiles;
use crate::mjai::Suit;
use crate::shanten::{calc_all, spec_calc_all};
use crate::tile::Tile;
use crate::point::{Point, spec_base_points};
use crate::shanten::Choice;
use std::hash::{Hash, Hasher};
use vstd::string::StringExecFns;
use vstd::prelude::*;

verus! {

/// Which optional fan types a table plays with.
#[derive(Debug, Clone, Copy, PartialEq, Eq, Hash, Structural)]
pub struct FanConfig {
    /// 门清 (+1): no open melds.
    pub menqing: bool,
    /// 断幺九 (+1): no terminals.
    pub duanyaojiu: bool,
    /// 带幺九 (+3): every meld and the pair hold a terminal.
    pub daiyaojiu: bool,
    /// 一条龙 (+1): runs 123, 456 and 789 of one suit.
    pub yitiaolong: bool,
    /// 夹心五 (+1): winning on a 5 that completes a 456 run.
    pub jiaxinwu: bool,
    /// 海底 (+1): winning on the last tile.
    pub haidi: bool,
    /// 天胡/地胡: a win on the first turn is worth the cap.
    pub tianhu_dihu: bool,
}

/// The fan of a win (capped at 5).
#[derive(Debug, Clone, Copy, PartialEq, Eq, Structural)]
pub enum Agari {
    Fan(u8),
}

/// Everything the fan count of a win depends on.
#[derive(Debug)]
pub struct AgariCalculator<'a> {
    /// The concealed tiles, winning tile included.
    pub tehai: &'a [u8; 27],
    pub pons: &'a [u8],
    pub minkans: &'a [u8],
    pub ankans: &'a [u8],
    pub winning_tile: u8,
    /// Ron (true) or tsumo (false).
    pub is_ron: bool,
    pub ding_que: Option<Suit>,
    pub is_after_kan: bool,
    pub is_kan_discard: bool,
    pub is_chankan: bool,
    /// A tile kind that does not count as a root (根) even with four copies.
    pub exclude_gen_tile: Option<u8>,
    pub is_haidi: bool,
    pub is_tianhu: bool,
    pub is_dihu: bool,
    pub fan_config: FanConfig,
}

/// Every flag set: the full Bloody Battle rule set.
pub open spec fn all_fans() -> FanConfig {
    FanConfig {
        menqing: true,
        duanyaojiu: true,
        daiyaojiu: true,
        yitiaolong: true,
        jiaxinwu: true,
        haidi: true,
        tianhu_dihu: true,
    }
}

/// Hashes `seed` with `ahash::AHasher::default()` (`Hash::hash`, then `Hasher::finish`).
/// The hasher's keys are drawn once per process, so the result is stated nothing of: it
/// depends on more than `seed`.
#[verifier::external_body]
fn hash_seed(seed: u64) -> (r: u64) {
    let mut hasher = ahash::AHasher::default();
    seed.hash(&mut hasher);
    hasher.finish()
}

/// The flags of the low seven bits, lowest first.
pub open spec fn fan_config_of_bits(bits: u64) -> FanConfig {
    FanConfig {
        menqing: bits & 1 != 0,
        duanyaojiu: bits & 2 != 0,
        daiyaojiu: bits & 4 != 0,
        yitiaolong: bits & 8 != 0,
        jiaxinwu: bits & 16 != 0,
        haidi: bits & 32 != 0,
        tianhu_dihu: bits & 64 != 0,
    }
}


/// `"true"` or `"false"`.
pub open spec fn bool_text(b: bool) -> Seq<char> {
    if b {
        "true"@
    } else {
        "false"@
    }
}

/// The text of a configuration: `FanConfig(menqing=true, duanyaojiu=false, ...)`.
pub open spec fn fan_config_text(c: FanConfig) -> Seq<char> {
    "FanConfig(menqing="@ + bool_text(c.menqing) + ", duanyaojiu="@ + bool_text(c.duanyaojiu)
        + ", daiyaojiu="@ + bool_text(c.daiyaojiu) + ", yitiaolong="@ + bool_text(c.yitiaolong)
        + ", jiaxinwu="@ + bool_text(c.jiaxinwu) + ", haidi="@ + bool_text(c.haidi)
        + ", tianhu_dihu="@ + bool_text(c.tianhu_dihu) + ")"@
}

fn bool_str(b: bool) -> (r: &'static str)
    ensures
        r@ == bool_text(b),
{
    if b {
        "true"
    } else {
        "false"
    }
}

impl Default for FanConfig {
    fn default() -> (r: Self)
        ensures
            r == all_fans(),
    {
        FanConfig::all()
    }
}

impl FanConfig {
    /// All fans enabled: the standard rule set.
    pub fn all() -> (r: FanConfig)
        ensures
            r == all_fans(),
    {
        FanConfig {
            menqing: true,
            duanyaojiu: true,
            daiyaojiu: true,
            yitiaolong: true,
            jiaxinwu: true,
            haidi: true,
            tianhu_dihu: true,
        }
    }

    /// Number of configurable flags.
    pub const NUM_FLAGS: usize = 7;

    /// The flags in field order.
    pub fn as_flags(&self) -> (r: [bool; 7])
        ensures
            r@ == seq![
                self.menqing,
                self.duanyaojiu,
                self.daiyaojiu,
                self.yitiaolong,
                self.jiaxinwu,
                self.haidi,
                self.tianhu_dihu,
            ],
    {
        let r = [
            self.menqing,
            self.duanyaojiu,
            self.daiyaojiu,
            self.yitiaolong,
            self.jiaxinwu,
            self.haidi,
            self.tianhu_dihu,
        ];
        assert(r@ =~= seq![
            self.menqing,
            self.duanyaojiu,
            self.daiyaojiu,
            self.yitiaolong,
            self.jiaxinwu,
            self.haidi,
            self.tianhu_dihu,
        ]);
        r
    }

    /// The text of the configuration (see `fan_config_text`).
    #[allow(non_snake_case)]
    pub fn __repr__(&self) -> (r: String)
        ensures
            r@ == fan_config_text(*self),
    {
        let mut out = String::new();
        out.append("FanConfig(menqing=");
        out.append(bool_str(self.menqing));
        out.append(", duanyaojiu=");
        out.append(bool_str(self.duanyaojiu));
        out.append(", daiyaojiu=");
        out.append(bool_str(self.daiyaojiu));
        out.append(", yitiaolong=");
        out.append(bool_str(self.yitiaolong));
        out.append(", jiaxinwu=");
        out.append(bool_str(self.jiaxinwu));
        out.append(", haidi=");
        out.append(bool_str(self.haidi));
        out.append(", tianhu_dihu=");
        out.append(bool_str(self.tianhu_dihu));
        out.append(")");
        proof {
            reveal_strlit("FanConfig(menqing=");
            reveal_strlit(", duanyaojiu=");
            reveal_strlit(", daiyaojiu=");
            reveal_strlit(", yitiaolong=");
            reveal_strlit(", jiaxinwu=");
            reveal_strlit(", haidi=");
            reveal_strlit(", tianhu_dihu=");
            reveal_strlit(")");
        }
        assert(out@ =~= fan_config_text(*self));
        out
    }

    /// A configuration drawn from `seed`: each flag is one bit of the seed's hash, so that
    /// the same seed gives the same rule set within a process.
    pub fn random_from_seed(seed: u64) -> (r: Self)
        ensures
            exists|bits: u64| r == fan_config_of_bits(bits),
    {
        Self::from_bits(hash_seed(seed))
    }

    /// The configuration whose flags are the low seven bits of `bits`, lowest first.
    pub fn from_bits(bits: u64) -> (r: Self)
        ensures
            r == fan_config_of_bits(bits),
    {
        FanConfig {
            menqing: bits & 1 != 0,
            duanyaojiu: bits & 2 != 0,
            daiyaojiu: bits & 4 != 0,
            yitiaolong: bits & 8 != 0,
            jiaxinwu: bits & 16 != 0,
            haidi: bits & 32 != 0,
            tianhu_dihu: bits & 64 != 0,
        }
    }
}

impl Agari {
    /// The points of this win (dealer or not).
    pub fn point(self, _is_oya: bool) -> (r: Point)
        ensures
            match self {
                Agari::Fan(f) => r.ron == spec_base_points(f) && r.tsumo_ko == spec_base_points(f),
            },
    {
        match self {
            Agari::Fan(fan) => Point::calc_from_fan(fan),
        }
    }
}

// ---------------------------------------------------------------------------------------------
// The 14-tile view of a hand: concealed tiles plus each open meld as a triplet.
/// How many of the first `i` entries of `s` are `t`.
pub open spec fn count_prefix(s: Seq<u8>, t: int, i: int) -> int
    decreases i,
{
    if i <= 0 {
        0
    } else {
        count_prefix(s, t, i - 1) + if s[i - 1] as int == t {
            1int
        } else {
            0int
        }
    }
}

/// How many entries of `s` are `t`.
pub open spec fn count_in(s: Seq<u8>, t: int) -> int {
    count_prefix(s, t, s.len() as int)
}

/// Every entry of `s` is a tile kind.
pub open spec fn all_kinds(s: Seq<u8>) -> bool {
    forall|i: int| 0 <= i < s.len() ==> #[trigger] s[i] < 27
}

/// Tiles of kind `k` in the 14-tile view.
pub open spec fn hand14_count(tehai: Seq<u8>, melds: Seq<Seq<u8>>, k: int) -> int {
    tehai[k] as int + 3 * (count_in(melds[0], k) + count_in(melds[1], k) + count_in(melds[2], k))
}

/// The sum of the first `k` counts of the 14-tile view.
pub open spec fn hand14_sum(tehai: Seq<u8>, melds: Seq<Seq<u8>>, k: int) -> int
    decreases k,
{
    if k <= 0 {
        0
    } else {
        hand14_sum(tehai, melds, k - 1) + hand14_count(tehai, melds, k - 1)
    }
}

/// The 14-tile view exists: melds are tile kinds, a melded kind holds at most four tiles,
/// and there are fourteen tiles in all.
pub open spec fn hand14_ok(tehai: Seq<u8>, melds: Seq<Seq<u8>>) -> bool {
    &&& all_kinds(melds[0]) && all_kinds(melds[1]) && all_kinds(melds[2])
    &&& forall|k: int|
        0 <= k < 27 && count_in(melds[0], k) + count_in(melds[1], k) + count_in(melds[2], k) > 0
            ==> #[trigger] hand14_count(tehai, melds, k) <= 4
    &&& hand14_sum(tehai, melds, 27) == 14
}

/// The 14-tile view.
pub open spec fn hand14_seq(tehai: Seq<u8>, melds: Seq<Seq<u8>>) -> Seq<u8> {
    Seq::new(27, |k: int| hand14_count(tehai, melds, k) as u8)
}

// ---------------------------------------------------------------------------------------------
// Seven pairs, where four of a kind count as two pairs (龙七对).
/// Pairs among the first `k` kinds (two tiles one pair, four tiles two).
pub open spec fn chitoi_pairs(h: Seq<u8>, k: int) -> int
    decreases k,
{
    if k <= 0 {
        0
    } else {
        chitoi_pairs(h, k - 1) + if h[k - 1] == 2 {
            1int
        } else if h[k - 1] == 4 {
            2int
        } else {
            0int
        }
    }
}

/// Every kind is held 0, 2 or 4 times, and that makes seven pairs.
pub open spec fn spec_is_chitoi(h: Seq<u8>) -> bool {
    (forall|k: int| 0 <= k < 27 ==> #[trigger] h[k] == 0 || h[k] == 2 || h[k] == 4)
        && chitoi_pairs(h, 27) == 7
}

/// Checks whether a 27-count hand is seven pairs (four of a kind counting as two).
pub fn is_valid_chitoi_hand(tiles: &[u8; 27]) -> (r: bool)
    ensures
        r == spec_is_chitoi(tiles@),
{
    let mut pairs: u8 = 0;
    let mut k: usize = 0;
    while k < 27
        invariant
            k <= 27,
            pairs as int == chitoi_pairs(tiles@, k as int),
            pairs <= 2 * k,
            forall|j: int| 0 <= j < k ==> #[trigger] tiles@[j] == 0 || tiles@[j] == 2 || tiles@[j]
                == 4,
        decreases 27 - k,
    {
        let c = tiles[k];
        if c == 2 {
            pairs += 1;
        } else if c == 4 {
            pairs += 2;
        } else if c != 0 {
            return false;
        }
        k += 1;
    }
    pairs == 7
}

// ---------------------------------------------------------------------------------------------
// The fan of one division.
/// Open melds of the hand.
pub open spec fn melds_of(c: AgariCalculator) -> Seq<Seq<u8>> {
    seq![c.pons@, c.minkans@, c.ankans@]
}

pub open spec fn has_fuuro(c: AgariCalculator) -> bool {
    c.pons@.len() > 0 || c.minkans@.len() > 0 || c.ankans@.len() > 0
}

/// The player named no suit, or the whole hand is free of it.
pub open spec fn ding_que_ok(c: AgariCalculator) -> bool {
    !spec_has_ding_que_tiles_in_hand(*c.tehai, c.pons@, c.minkans@, c.ankans@, c.ding_que)
}

/// Every open meld is a triplet of the division.
pub open spec fn compatible(c: AgariCalculator, d: Seq<Choice>) -> bool {
    &&& forall|i: int| 0 <= i < c.pons@.len() ==> #[trigger] c.pons@[i] < 27 && d[c.pons@[i] as int].kotsu
    &&& forall|i: int| 0 <= i < c.minkans@.len() ==> #[trigger] c.minkans@[i] < 27 && d[c.minkans@[i] as int].kotsu
    &&& forall|i: int| 0 <= i < c.ankans@.len() ==> #[trigger] c.ankans@[i] < 27 && d[c.ankans@[i] as int].kotsu
}

/// Some division of `h14` keeps every open meld a triplet.
pub open spec fn has_compatible(c: AgariCalculator, h14: Seq<u8>) -> bool {
    exists|a: [Choice; 27]| is_division(a@, h14) && compatible(c, a@)
}

/// Tiles of kind `k` in the whole hand: concealed, 3 per pon, 4 per kan.
pub open spec fn total_count(c: AgariCalculator, k: int) -> int {
    c.tehai[k] as int + 3 * count_in(c.pons@, k) + 4 * count_in(c.minkans@, k) + 4 * count_in(
        c.ankans@,
        k,
    )
}

/// Roots (根) among the first `k` kinds: kinds held four times, but for the excluded one.
pub open spec fn gen_upto(c: AgariCalculator, k: int) -> int
    decreases k,
{
    if k <= 0 {
        0
    } else {
        gen_upto(c, k - 1) + if total_count(c, k - 1) == 4 && c.exclude_gen_tile != Some((k - 1) as u8) {
            1int
        } else {
            0int
        }
    }
}

pub open spec fn spec_gen(c: AgariCalculator) -> int {
    gen_upto(c, 27)
}

pub open spec fn has_shuntsu(d: Seq<Choice>) -> bool {
    exists|k: int| 0 <= k < 27 && #[trigger] d[k].shuntsu > 0
}

/// Triplets among the first `k` kinds.
pub open spec fn kotsu_upto(d: Seq<Choice>, k: int) -> int
    decreases k,
{
    if k <= 0 {
        0
    } else {
        kotsu_upto(d, k - 1) + if d[k - 1].kotsu {
            1int
        } else {
            0int
        }
    }
}

/// 碰碰胡: four triplets and no run.
pub open spec fn is_toitoi(d: Seq<Choice>) -> bool {
    !has_shuntsu(d) && kotsu_upto(d, 27) == 4
}

/// 金钩钓: four open melds and the pair is the winning tile.
pub open spec fn is_tanki(c: AgariCalculator, d: Seq<Choice>) -> bool {
    c.pons@.len() + c.minkans@.len() + c.ankans@.len() == 4 && c.winning_tile < 27 && d[c.winning_tile as int].pair
}

/// 清一色: every tile of the 14-tile view is of one suit.
pub open spec fn is_qingyise(h14: Seq<u8>) -> bool {
    all_in_suit(h14, 0) || all_in_suit(h14, 1) || all_in_suit(h14, 2)
}

/// Every tile the hand holds is of suit `s`.
pub open spec fn all_in_suit(h14: Seq<u8>, s: int) -> bool {
    forall|k: int| 0 <= k < 27 && #[trigger] h14[k] > 0 ==> k / 9 == s
}

/// 一条龙: runs 123, 456 and 789 of one suit.
pub open spec fn is_yitiaolong(d: Seq<Choice>) -> bool {
    dragon_in_suit(d, 0) || dragon_in_suit(d, 1) || dragon_in_suit(d, 2)
}

/// Runs 123, 456 and 789 of suit `s`.
pub open spec fn dragon_in_suit(d: Seq<Choice>, s: int) -> bool {
    d[9 * s].shuntsu > 0 && d[9 * s + 3].shuntsu > 0 && d[9 * s + 6].shuntsu > 0
}

/// 夹心五: the winning tile is a 5 and the division runs 456 in its suit.
pub open spec fn is_jiaxinwu(c: AgariCalculator, d: Seq<Choice>) -> bool {
    c.winning_tile < 27 && c.winning_tile % 9 == 4 && d[(c.winning_tile / 9) * 9 + 3].shuntsu > 0
}

pub open spec fn is_terminal_rank(k: int) -> bool {
    k % 9 == 0 || k % 9 == 8
}

/// Every open meld tile (of a tile kind) is a terminal, or (`simple`) none is.
pub open spec fn melds_terminal(c: AgariCalculator, simple: bool) -> bool {
    &&& forall|i: int| 0 <= i < c.pons@.len() && #[trigger] c.pons@[i] < 27 ==> is_terminal_rank(c.pons@[i] as int) != simple
    &&& forall|i: int| 0 <= i < c.minkans@.len() && #[trigger] c.minkans@[i] < 27 ==> is_terminal_rank(c.minkans@[i] as int) != simple
    &&& forall|i: int| 0 <= i < c.ankans@.len() && #[trigger] c.ankans@[i] < 27 ==> is_terminal_rank(c.ankans@[i] as int) != simple
}

/// 带幺九: every run is 123 or 789, every triplet and the pair are terminals.
pub open spec fn is_daiyaojiu(c: AgariCalculator, d: Seq<Choice>) -> bool {
    &&& forall|k: int| 0 <= k < 27 && #[trigger] d[k].shuntsu > 0 ==> k % 9 == 0 || k % 9 == 6
    &&& forall|k: int| 0 <= k < 27 && #[trigger] d[k].kotsu ==> is_terminal_rank(k)
    &&& forall|k: int| 0 <= k < 27 && #[trigger] d[k].pair ==> is_terminal_rank(k)
    &&& melds_terminal(c, false)
}

/// 断幺九: no run 123 or 789, no terminal triplet or pair.
pub open spec fn is_duanyaojiu(c: AgariCalculator, d: Seq<Choice>) -> bool {
    &&& forall|k: int| 0 <= k < 27 && #[trigger] d[k].shuntsu > 0 ==> k % 9 != 0 && k % 9 != 6
    &&& forall|k: int| 0 <= k < 27 && #[trigger] d[k].kotsu ==> !is_terminal_rank(k)
    &&& forall|k: int| 0 <= k < 27 && #[trigger] d[k].pair ==> !is_terminal_rank(k)
    &&& melds_terminal(c, true)
}

/// 带幺九 (+3) if enabled and met, else 断幺九 (+1) if enabled and met.
pub open spec fn yaojiu_bonus(fc: FanConfig, dai: bool, duan: bool) -> int {
    if fc.daiyaojiu && dai {
        3
    } else if fc.duanyaojiu && duan {
        1
    } else {
        0
    }
}

pub open spec fn flag(b: bool, v: int) -> int {
    if b {
        v
    } else {
        0
    }
}

/// The fan a division adds to the base.
pub open spec fn div_fan(c: AgariCalculator, d: Seq<Choice>, h14: Seq<u8>) -> int {
    spec_gen(c) + flag(is_toitoi(d), 1) + flag(is_tanki(c, d), 1) + flag(is_qingyise(h14), 2) + flag(
        c.fan_config.yitiaolong && is_yitiaolong(d),
        1,
    ) + flag(c.fan_config.jiaxinwu && is_jiaxinwu(c, d), 1) + yaojiu_bonus(
        c.fan_config,
        is_daiyaojiu(c, d),
        is_duanyaojiu(c, d),
    )
}

/// The fan seven pairs adds to the base.
pub open spec fn chitoi_fan(c: AgariCalculator, h14: Seq<u8>) -> int {
    2 + spec_gen(c) + flag(is_qingyise(h14), 2) + yaojiu_bonus(
        c.fan_config,
        forall|k: int| 0 <= k < 27 ==> c.tehai[k] == 0 || #[trigger] is_terminal_rank(k),
        forall|k: int| 0 <= k < 27 ==> c.tehai[k] == 0 || !#[trigger] is_terminal_rank(k),
    )
}

/// A division counted for the fan: any division without open melds, else a compatible one.
pub open spec fn counted(c: AgariCalculator, d: Seq<Choice>, h14: Seq<u8>) -> bool {
    is_division(d, h14) && (!has_fuuro(c) || compatible(c, d))
}

/// `b` is the largest fan over counted divisions and seven pairs (without open melds), or 0.
pub open spec fn is_best_fan(c: AgariCalculator, h14: Seq<u8>, b: int) -> bool {
    &&& b >= 0
    &&& forall|a: [Choice; 27]| counted(c, a@, h14) ==> div_fan(c, a@, h14) <= b
    &&& spec_is_chitoi(h14) && !has_fuuro(c) ==> chitoi_fan(c, h14) <= b
    &&& b == 0 || (exists|a: [Choice; 27]| counted(c, a@, h14) && div_fan(c, a@, h14) == b) || (
    spec_is_chitoi(h14) && !has_fuuro(c) && chitoi_fan(c, h14) == b)
}

pub open spec fn best_fan(c: AgariCalculator, h14: Seq<u8>) -> int {
    choose|b: int| is_best_fan(c, h14, b)
}

/// Fan from the way of winning: 平胡 1, 自摸 +1, 海底 +1, 门清 +1.
pub open spec fn base_fan(c: AgariCalculator) -> int {
    1 + flag(!c.is_ron, 1) + flag(c.fan_config.haidi && c.is_haidi, 1) + flag(
        c.fan_config.menqing && !has_fuuro(c),
        1,
    )
}

/// 杠上花, 杠上炮, 抢杠.
pub open spec fn kan_fan(c: AgariCalculator) -> int {
    flag(c.is_after_kan && !c.is_ron, 1) + flag(c.is_kan_discard && c.is_ron && !c.is_chankan, 1)
        + flag(c.is_chankan && c.is_ron, 1)
}

/// The fan of the win, capped at 5; 天胡/地胡 give the cap.
pub open spec fn total_fan(c: AgariCalculator, h14: Seq<u8>) -> int {
    if c.fan_config.tianhu_dihu && (c.is_tianhu || c.is_dihu) {
        5
    } else {
        let f = base_fan(c) + best_fan(c, h14) + kan_fan(c);
        if f > 5 {
            5
        } else {
            f
        }
    }
}

/// The hand wins: no ding que tile, a 14-tile view, and a division (compatible with the open
/// melds) or seven pairs without open melds.
pub open spec fn spec_has_yaku(c: AgariCalculator) -> bool {
    let h14 = hand14_seq(c.tehai@, melds_of(c));
    &&& ding_que_ok(c)
    &&& hand14_ok(c.tehai@, melds_of(c))
    &&& (spec_is_chitoi(h14) && !has_fuuro(c)) || (has_division(h14) && (!has_fuuro(c)
        || has_compatible(c, h14)))
}

/// The win and its fan, or `None` when the hand does not win.
pub open spec fn spec_agari(c: AgariCalculator) -> Option<Agari> {
    let h14 = hand14_seq(c.tehai@, melds_of(c));
    if !ding_que_ok(c) || !hand14_ok(c.tehai@, melds_of(c)) {
        None
    } else if !has_division(h14) && !spec_is_chitoi(h14) {
        None
    } else if has_fuuro(c) && !has_compatible(c, h14) {
        None
    } else {
        Some(Agari::Fan(total_fan(c, h14) as u8))
    }
}

// ---------------------------------------------------------------------------------------------
// Executable checks.
proof fn lemma_count_prefix_bounds(s: Seq<u8>, t: int, i: int, j: int)
    requires
        0 <= i <= j,
    ensures
        0 <= count_prefix(s, t, i) <= count_prefix(s, t, j),
    decreases j - i,
{
    if i < j {
        lemma_count_prefix_bounds(s, t, i, j - 1);
    } else {
        lemma_count_prefix_nonneg(s, t, i);
    }
}

proof fn lemma_count_prefix_nonneg(s: Seq<u8>, t: int, i: int)
    ensures
        0 <= count_prefix(s, t, i),
    decreases i,
{
    if i > 0 {
        lemma_count_prefix_nonneg(s, t, i - 1);
    }
}

/// Adds three tiles to `tiles` for each meld, failing when a meld is not a tile kind or
/// a melded kind would exceed four tiles.
fn add_melds(tiles: &mut [u8; 27], melds: &[u8]) -> (ok: bool)
    ensures
        ok == (all_kinds(melds@) && forall|k: int|
            0 <= k < 27 && count_in(melds@, k) > 0 ==> old(tiles)@[k] + 3 * count_in(melds@, k)
                <= 4),
        ok ==> forall|k: int| 0 <= k < 27 ==> #[trigger] final(tiles)@[k] == old(tiles)@[k] + 3 * count_in(melds@, k),
{
    let ghost orig = tiles@;
    let mut i: usize = 0;
    while i < melds.len()
        invariant
            i <= melds@.len(),
            orig.len() == 27,
            orig == old(tiles)@,
            forall|j: int| 0 <= j < i ==> #[trigger] melds@[j] < 27,
            forall|k: int| 0 <= k < 27 ==> #[trigger] tiles@[k] == orig[k] + 3 * count_prefix(melds@, k, i as int),
            forall|k: int|
                0 <= k < 27 && count_prefix(melds@, k, i as int) > 0 ==> #[trigger] tiles@[k] <= 4,
        decreases melds.len() - i,
    {
        let t = melds[i];
        if t >= 27 {
            return false;
        }
        let ti = t as usize;
        if tiles[ti] > 1 {
            proof {
                let tk = t as int;
                lemma_count_prefix_bounds(melds@, tk, i + 1, melds@.len() as int);
                lemma_count_prefix_nonneg(melds@, tk, i as int);
                assert(count_prefix(melds@, tk, i + 1) == count_prefix(melds@, tk, i as int) + 1);
                assert(count_in(melds@, tk) >= count_prefix(melds@, tk, i as int) + 1);
                assert(tiles@[tk] == orig[tk] + 3 * count_prefix(melds@, tk, i as int));
                assert(orig[tk] + 3 * count_in(melds@, tk) > 4);
                assert(!(0 <= tk < 27 && count_in(melds@, tk) > 0 ==> orig[tk] + 3 * count_in(
                    melds@,
                    tk,
                ) <= 4));
            }
            return false;
        }
        tiles[ti] = tiles[ti] + 3;
        proof {
            assert forall|k: int| 0 <= k < 27 implies #[trigger] tiles@[k] == orig[k] + 3
                * count_prefix(melds@, k, i + 1) by {}
            assert forall|k: int|
                0 <= k < 27 && count_prefix(melds@, k, i + 1) > 0 implies #[trigger] tiles@[k] <= 4 by {
                lemma_count_prefix_nonneg(melds@, k, i as int);
            }
        }
        i += 1;
    }
    proof {
        assert forall|k: int|
            0 <= k < 27 && count_in(melds@, k) > 0 implies orig[k] + 3 * count_in(melds@, k) <= 4 by {
            assert(tiles@[k] <= 4);
        }
    }
    true
}

/// Adds `w` tiles to `total` per meld of a tile kind, saturating at 255.
fn add_weighted(total: &mut [u8; 27], melds: &[u8], w: u8)
    requires
        w <= 4,
    ensures
        forall|k: int| 0 <= k < 27 ==> #[trigger] final(total)@[k] == if old(total)@[k] + w * count_in(melds@, k) > 255 {
            255
        } else {
            old(total)@[k] + w * count_in(melds@, k)
        },
{
    let ghost orig = total@;
    let mut i: usize = 0;
    while i < melds.len()
        invariant
            w <= 4,
            i <= melds@.len(),
            orig.len() == 27,
            forall|k: int| 0 <= k < 27 ==> #[trigger] total@[k] == if orig[k] + w * count_prefix(melds@, k, i as int) > 255 {
                255
            } else {
                orig[k] + w * count_prefix(melds@, k, i as int)
            },
        decreases melds.len() - i,
    {
        let t = melds[i];
        if t < 27 {
            let ti = t as usize;
            total[ti] = total[ti].saturating_add(w);
        }
        proof {
            assert forall|k: int| 0 <= k < 27 implies #[trigger] total@[k] == if orig[k] + w
                * count_prefix(melds@, k, i + 1) > 255 {
                255
            } else {
                orig[k] + w * count_prefix(melds@, k, i + 1)
            } by {
                lemma_count_prefix_nonneg(melds@, k, i as int);
                assert(w * count_prefix(melds@, k, i + 1) == w * count_prefix(melds@, k, i as int)
                    + if melds@[i as int] as int == k {
                    w as int
                } else {
                    0
                }) by (nonlinear_arith)
                    requires
                        count_prefix(melds@, k, i + 1) == count_prefix(melds@, k, i as int) + if melds@[i as int] as int == k {
                            1int
                        } else {
                            0int
                        },
                ;
            }
        }
        i += 1;
    }
}

/// Tiles of `h` of suit `s` only.
fn all_in_suit_exec(h: &[u8; 27], s: usize) -> (r: bool)
    requires
        s < 3,
    ensures
        r == all_in_suit(h@, s as int),
{
    let mut k: usize = 0;
    while k < 27
        invariant
            s < 3,
            k <= 27,
            forall|j: int| 0 <= j < k && #[trigger] h@[j] > 0 ==> j / 9 == s,
        decreases 27 - k,
    {
        if h[k] > 0 && k / 9 != s {
            return false;
        }
        k += 1;
    }
    true
}

fn is_qingyise_exec(h: &[u8; 27]) -> (r: bool)
    ensures
        r == is_qingyise(h@),
{
    all_in_suit_exec(h, 0) || all_in_suit_exec(h, 1) || all_in_suit_exec(h, 2)
}

fn has_shuntsu_exec(d: &[Choice; 27]) -> (r: bool)
    ensures
        r == has_shuntsu(d@),
{
    let mut k: usize = 0;
    while k < 27
        invariant
            k <= 27,
            forall|j: int| 0 <= j < k ==> #[trigger] d@[j].shuntsu == 0,
        decreases 27 - k,
    {
        if d[k].shuntsu > 0 {
            return true;
        }
        k += 1;
    }
    false
}

fn kotsu_count_exec(d: &[Choice; 27]) -> (r: u8)
    ensures
        r == kotsu_upto(d@, 27),
{
    let mut n: u8 = 0;
    let mut k: usize = 0;
    while k < 27
        invariant
            k <= 27,
            n <= k,
            n == kotsu_upto(d@, k as int),
        decreases 27 - k,
    {
        if d[k].kotsu {
            n += 1;
        }
        k += 1;
    }
    n
}

fn yitiaolong_exec(d: &[Choice; 27]) -> (r: bool)
    ensures
        r == is_yitiaolong(d@),
{
    (d[0].shuntsu > 0 && d[3].shuntsu > 0 && d[6].shuntsu > 0) || (d[9].shuntsu > 0 && d[12].shuntsu
        > 0 && d[15].shuntsu > 0) || (d[18].shuntsu > 0 && d[21].shuntsu > 0 && d[24].shuntsu > 0)
}

/// Every run of `d` starts at rank 1 or 7 (`dai`), or at neither (`!dai`); likewise every triplet
/// and the pair are terminals (`dai`) or not (`!dai`).
fn division_terminal(d: &[Choice; 27], dai: bool) -> (r: bool)
    ensures
        r == ((forall|k: int| 0 <= k < 27 && #[trigger] d@[k].shuntsu > 0 ==> (k % 9 == 0 || k % 9 == 6) == dai)
            && (forall|k: int| 0 <= k < 27 && #[trigger] d@[k].kotsu ==> is_terminal_rank(k) == dai)
            && (forall|k: int| 0 <= k < 27 && #[trigger] d@[k].pair ==> is_terminal_rank(k) == dai)),
{
    let mut k: usize = 0;
    while k < 27
        invariant
            k <= 27,
            forall|j: int| 0 <= j < k && #[trigger] d@[j].shuntsu > 0 ==> (j % 9 == 0 || j % 9 == 6) == dai,
            forall|j: int| 0 <= j < k && #[trigger] d@[j].kotsu ==> is_terminal_rank(j) == dai,
            forall|j: int| 0 <= j < k && #[trigger] d@[j].pair ==> is_terminal_rank(j) == dai,
        decreases 27 - k,
    {
        let num = k % 9;
        let term = num == 0 || num == 8;
        if d[k].shuntsu > 0 && (num == 0 || num == 6) != dai {
            return false;
        }
        if d[k].kotsu && term != dai {
            return false;
        }
        if d[k].pair && term != dai {
            return false;
        }
        k += 1;
    }
    true
}

/// Every meld tile below 27 is a terminal (`simple == false`) or none is (`simple == true`).
fn slice_terminal(melds: &[u8], simple: bool) -> (r: bool)
    ensures
        r == forall|i: int| 0 <= i < melds@.len() && #[trigger] melds@[i] < 27 ==> is_terminal_rank(melds@[i] as int) != simple,
{
    let mut i: usize = 0;
    while i < melds.len()
        invariant
            i <= melds@.len(),
            forall|j: int| 0 <= j < i && #[trigger] melds@[j] < 27 ==> is_terminal_rank(melds@[j] as int) != simple,
        decreases melds.len() - i,
    {
        let t = melds[i];
        if t < 27 {
            let num = t % 9;
            let term = num == 0 || num == 8;
            if term == simple {
                return false;
            }
        }
        i += 1;
    }
    true
}

fn slice_all_kotsu(melds: &[u8], d: &[Choice; 27]) -> (r: bool)
    ensures
        r == forall|i: int| 0 <= i < melds@.len() ==> #[trigger] melds@[i] < 27 && d@[melds@[i] as int].kotsu,
{
    let mut i: usize = 0;
    while i < melds.len()
        invariant
            i <= melds@.len(),
            forall|j: int| 0 <= j < i ==> #[trigger] melds@[j] < 27 && d@[melds@[j] as int].kotsu,
        decreases melds.len() - i,
    {
        let t = melds[i];
        if t >= 27 || !d[t as usize].kotsu {
            return false;
        }
        i += 1;
    }
    true
}

/// Every concealed kind is a terminal (`dai`) or none is (`!dai`).
fn tehai_terminal(tehai: &[u8; 27], dai: bool) -> (r: bool)
    ensures
        r == forall|k: int| 0 <= k < 27 ==> tehai@[k] == 0 || #[trigger] is_terminal_rank(k) == dai,
{
    let mut k: usize = 0;
    while k < 27
        invariant
            k <= 27,
            forall|j: int| 0 <= j < k ==> tehai@[j] == 0 || #[trigger] is_terminal_rank(j) == dai,
        decreases 27 - k,
    {
        let num = k % 9;
        let term = num == 0 || num == 8;
        if tehai[k] != 0 && term != dai {
            proof {
                let kk = k as int;
                assert(is_terminal_rank(kk) == term);
                assert(!(tehai@[kk] == 0 || is_terminal_rank(kk) == dai));
            }
            return false;
        }
        k += 1;
    }
    true
}

fn yaojiu_bonus_exec(fc: FanConfig, dai: bool, duan: bool) -> (r: u8)
    ensures
        r == yaojiu_bonus(fc, dai, duan),
{
    if fc.daiyaojiu && dai {
        3
    } else if fc.duanyaojiu && duan {
        1
    } else {
        0
    }
}

impl AgariCalculator<'_> {
    /// The hand with every open meld counted as a triplet, when that is a 14-tile hand.
    fn hand14_for_division(&self) -> (r: Option<[u8; 27]>)
        ensures
            r is Some == hand14_ok(self.tehai@, melds_of(*self)),
            r matches Some(h) ==> h@ == hand14_seq(self.tehai@, melds_of(*self)),
    {
        let ghost c = *self;
        let ghost ms = melds_of(c);
        let mut tiles = *self.tehai;
        let ghost t0 = tiles@;
        proof {
            assert forall|k: int| 0 <= k < 27 implies count_in(ms[0], k) >= 0 && count_in(ms[1], k) >= 0
                && count_in(ms[2], k) >= 0 by {
                lemma_count_prefix_nonneg(ms[0], k, ms[0].len() as int);
                lemma_count_prefix_nonneg(ms[1], k, ms[1].len() as int);
                lemma_count_prefix_nonneg(ms[2], k, ms[2].len() as int);
            }
        }
        if !add_melds(&mut tiles, self.pons) {
            proof {
                if hand14_ok(c.tehai@, ms) {
                    assert forall|k: int| 0 <= k < 27 && count_in(ms[0], k) > 0 implies t0[k] + 3
                        * count_in(ms[0], k) <= 4 by {
                        assert(hand14_count(c.tehai@, ms, k) <= 4);
                    }
                }
            }
            return None;
        }
        let ghost t1 = tiles@;
        if !add_melds(&mut tiles, self.minkans) {
            proof {
                if hand14_ok(c.tehai@, ms) {
                    assert forall|k: int| 0 <= k < 27 && count_in(ms[1], k) > 0 implies t1[k] + 3
                        * count_in(ms[1], k) <= 4 by {
                        assert(hand14_count(c.tehai@, ms, k) <= 4);
                    }
                }
            }
            return None;
        }
        let ghost t2 = tiles@;
        if !add_melds(&mut tiles, self.ankans) {
            proof {
                if hand14_ok(c.tehai@, ms) {
                    assert forall|k: int| 0 <= k < 27 && count_in(ms[2], k) > 0 implies t2[k] + 3
                        * count_in(ms[2], k) <= 4 by {
                        assert(hand14_count(c.tehai@, ms, k) <= 4);
                    }
                }
            }
            return None;
        }
        proof {
            assert forall|k: int| 0 <= k < 27 implies #[trigger] tiles@[k] == hand14_count(c.tehai@, ms, k) by {}
            assert forall|k: int|
                0 <= k < 27 && count_in(ms[0], k) + count_in(ms[1], k) + count_in(ms[2], k) > 0
                    implies #[trigger] hand14_count(c.tehai@, ms, k) <= 4 by {
                if count_in(ms[2], k) > 0 {
                } else if count_in(ms[1], k) > 0 {
                } else {
                }
            }
        }
        let mut sum: u32 = 0;
        let mut k: usize = 0;
        while k < 27
            invariant
                k <= 27,
                sum <= 255 * k,
                sum as int == hand14_sum(c.tehai@, ms, k as int),
                forall|j: int| 0 <= j < 27 ==> #[trigger] tiles@[j] == hand14_count(c.tehai@, ms, j),
            decreases 27 - k,
        {
            sum = sum + tiles[k] as u32;
            k += 1;
        }
        if sum != 14 {
            return None;
        }
        assert(tiles@ =~= hand14_seq(c.tehai@, ms));
        Some(tiles)
    }

    /// Roots (根): kinds held four times in the whole hand, but the excluded one.
    fn gen_count(&self) -> (r: u8)
        ensures
            r == spec_gen(*self),
    {
        let ghost c = *self;
        let mut total = *self.tehai;
        let ghost t0 = total@;
        add_weighted(&mut total, self.pons, 3);
        let ghost t1 = total@;
        add_weighted(&mut total, self.minkans, 4);
        let ghost t2 = total@;
        add_weighted(&mut total, self.ankans, 4);
        proof {
            assert forall|k: int| 0 <= k < 27 implies (#[trigger] total@[k] == 4) == (total_count(c, k) == 4) by {
                lemma_count_prefix_nonneg(c.pons@, k, c.pons@.len() as int);
                lemma_count_prefix_nonneg(c.minkans@, k, c.minkans@.len() as int);
                lemma_count_prefix_nonneg(c.ankans@, k, c.ankans@.len() as int);
            }
        }
        let mut n: u8 = 0;
        let mut k: usize = 0;
        while k < 27
            invariant
                k <= 27,
                n <= k,
                n == gen_upto(c, k as int),
                forall|j: int| 0 <= j < 27 ==> (#[trigger] total@[j] == 4) == (total_count(c, j) == 4),
                c == *self,
            decreases 27 - k,
        {
            let excluded = match self.exclude_gen_tile {
                Some(t) => t as usize == k,
                None => false,
            };
            if total[k] == 4 && !excluded {
                n += 1;
            }
            k += 1;
        }
        n
    }

    /// Every open meld is a triplet of the division.
    fn compatible_exec(&self, d: &[Choice; 27]) -> (r: bool)
        ensures
            r == compatible(*self, d@),
    {
        slice_all_kotsu(self.pons, d) && slice_all_kotsu(self.minkans, d) && slice_all_kotsu(self.ankans, d)
    }

    #[verifier::spinoff_prover]
    #[verifier::rlimit(40)]
    fn div_fan_exec(&self, d: &[Choice; 27], h14: &[u8; 27], gen: u8) -> (r: u8)
        requires
            gen == spec_gen(*self),
            gen <= 27,
        ensures
            r == div_fan(*self, d@, h14@),
    {
        let mut f: u8 = gen;
        if !has_shuntsu_exec(d) && kotsu_count_exec(d) == 4 {
            f += 1;
        }
        let four_melds = self.pons.len() <= 4 && self.minkans.len() <= 4 - self.pons.len()
            && self.ankans.len() == 4 - self.pons.len() - self.minkans.len();
        if four_melds && self.winning_tile < 27 && d[self.winning_tile as usize].pair {
            f += 1;
        }
        if is_qingyise_exec(h14) {
            f += 2;
        }
        let fc = self.fan_config;
        if fc.yitiaolong && yitiaolong_exec(d) {
            f += 1;
        }
        if fc.jiaxinwu && self.winning_tile < 27 && self.winning_tile % 9 == 4 && d[(self.winning_tile
            / 9) as usize * 9 + 3].shuntsu > 0 {
            f += 1;
        }
        let dai = division_terminal(d, true) && slice_terminal(self.pons, false) && slice_terminal(
            self.minkans,
            false,
        ) && slice_terminal(self.ankans, false);
        let duan = division_terminal(d, false) && slice_terminal(self.pons, true) && slice_terminal(
            self.minkans,
            true,
        ) && slice_terminal(self.ankans, true);
        proof {
            assert(dai == is_daiyaojiu(*self, d@));
            assert(duan == is_duanyaojiu(*self, d@));
        }
        f + yaojiu_bonus_exec(fc, dai, duan)
    }

    fn chitoi_fan_exec(&self, h14: &[u8; 27], gen: u8) -> (r: u8)
        requires
            gen == spec_gen(*self),
            gen <= 27,
        ensures
            r == chitoi_fan(*self, h14@),
    {
        let mut f: u8 = 2 + gen;
        if is_qingyise_exec(h14) {
            f += 2;
        }
        let dai = tehai_terminal(self.tehai, true);
        let duan = tehai_terminal(self.tehai, false);
        f + yaojiu_bonus_exec(self.fan_config, dai, duan)
    }

    fn has_fuuro_exec(&self) -> (r: bool)
        ensures
            r == has_fuuro(*self),
    {
        !self.pons.is_empty() || !self.minkans.is_empty() || !self.ankans.is_empty()
    }

    /// Some division keeps every open meld a triplet.
    fn any_compatible(&self, divs: &Vec<[Choice; 27]>) -> (r: bool)
        ensures
            r == exists|i: int| 0 <= i < divs@.len() && compatible(*self, #[trigger] divs@[i]@),
    {
        let mut i: usize = 0;
        while i < divs.len()
            invariant
                i <= divs@.len(),
                forall|j: int| 0 <= j < i ==> !compatible(*self, #[trigger] divs@[j]@),
            decreases divs.len() - i,
        {
            if self.compatible_exec(&divs[i]) {
                return true;
            }
            i += 1;
        }
        false
    }

    /// Whether the hand wins: no ding que tile left, a 14-tile hand that divides into one pair
    /// and melds with every open meld a triplet, or seven pairs without open melds.
    pub fn has_yaku(&self) -> (r: bool)
        ensures
            r == spec_has_yaku(*self),
    {
        if !can_agari_with_fuuro(self.tehai, self.pons, self.minkans, self.ankans, self.ding_que) {
            return false;
        }
        let h14 = match self.hand14_for_division() {
            Some(h) => h,
            None => return false,
        };
        let divs = divisions(&h14);
        let fu = self.has_fuuro_exec();
        if is_valid_chitoi_hand(&h14) && !fu {
            return true;
        }
        if divs.len() == 0 {
            return false;
        }
        if fu {
            let ok = self.any_compatible(&divs);
            proof {
                lemma_compatible_in(*self, divs@, h14@);
            }
            return ok;
        }
        true
    }

    /// The same as `agari`.
    pub fn search_yakus(&self) -> (r: Option<Agari>)
        ensures
            r == spec_agari(*self),
    {
        self.agari()
    }

    /// The fan of the win (平胡 1, 自摸, 海底, 门清, the best division or seven pairs with roots,
    /// and kan bonuses; capped at 5), or `None` when the hand does not win.
    #[verifier::spinoff_prover]
    pub fn agari(&self) -> (r: Option<Agari>)
        ensures
            r == spec_agari(*self),
    {
        let ghost c = *self;
        if !can_agari_with_fuuro(self.tehai, self.pons, self.minkans, self.ankans, self.ding_que) {
            return None;
        }
        let fu = self.has_fuuro_exec();
        let fc = self.fan_config;
        let mut fan: u8 = 1;
        if !self.is_ron {
            fan += 1;
        }
        if fc.haidi && self.is_haidi {
            fan += 1;
        }
        if fc.menqing && !fu {
            fan += 1;
        }
        let h14 = match self.hand14_for_division() {
            Some(h) => h,
            None => return None,
        };
        let divs = divisions(&h14);
        let chitoi = is_valid_chitoi_hand(&h14);
        if divs.len() == 0 && !chitoi {
            return None;
        }
        if fu {
            let ok = self.any_compatible(&divs);
            proof {
                lemma_compatible_in(c, divs@, h14@);
            }
            if !ok {
                return None;
            }
        }
        let gen = self.gen_count();
        proof {
            lemma_gen_bound(c, 27);
        }
        let mut max_fan: u8 = 0;
        let ghost mut arg: int = -1;
        let mut i: usize = 0;
        while i < divs.len()
            invariant
                c == *self,
                fu == has_fuuro(c),
                gen == spec_gen(c),
                gen <= 27,
                i <= divs@.len(),
                forall|a: [Choice; 27]| divs@.contains(a) <==> is_division(a@, h14@),
                max_fan <= 36,
                forall|j: int| 0 <= j < i && (!fu || compatible(c, divs@[j]@)) ==> div_fan(c, #[trigger] divs@[j]@, h14@) <= max_fan,
                max_fan == 0 || (0 <= arg < i && (!fu || compatible(c, divs@[arg]@)) && div_fan(c, divs@[arg]@, h14@) == max_fan),
            decreases divs.len() - i,
        {
            let d = divs[i];
            if !fu || self.compatible_exec(&d) {
                let f = self.div_fan_exec(&d, &h14, gen);
                if f > max_fan {
                    max_fan = f;
                    proof {
                        arg = i as int;
                    }
                }
            }
            i += 1;
        }
        let ghost from_divs = max_fan;
        if chitoi && !fu {
            let f = self.chitoi_fan_exec(&h14, gen);
            if f > max_fan {
                max_fan = f;
            }
        }
        proof {
            assert forall|a: [Choice; 27]| counted(c, a@, h14@) implies div_fan(c, a@, h14@) <= max_fan by {
                assert(divs@.contains(a));
                let j = choose|j: int| 0 <= j < divs@.len() && divs@[j] == a;
            }
            if max_fan != 0 && max_fan == from_divs && !(chitoi && !fu && chitoi_fan(c, h14@) == max_fan) {
                let a = divs@[arg];
                assert(divs@.contains(a));
                assert(counted(c, a@, h14@));
            }
            assert(is_best_fan(c, h14@, max_fan as int));
            lemma_best_fan_unique(c, h14@, max_fan as int);
        }
        let mut total: u8 = fan + max_fan;
        if self.is_after_kan && !self.is_ron {
            total += 1;
        }
        if self.is_kan_discard && self.is_ron && !self.is_chankan {
            total += 1;
        }
        if self.is_chankan && self.is_ron {
            total += 1;
        }
        if fc.tianhu_dihu && (self.is_tianhu || self.is_dihu) {
            total = 5;
        }
        if total > 5 {
            total = 5;
        }
        proof {
            if !has_division(h14@) {
                assert(divs@.len() == 0) by {
                    if divs@.len() > 0 {
                        assert(divs@.contains(divs@[0]));
                    }
                }
            }
        }
        Some(Agari::Fan(total))
    }
}

proof fn lemma_gen_bound(c: AgariCalculator, k: int)
    requires
        0 <= k,
    ensures
        0 <= gen_upto(c, k) <= k,
    decreases k,
{
    if k > 0 {
        lemma_gen_bound(c, k - 1);
    }
}

proof fn lemma_best_fan_unique(c: AgariCalculator, h14: Seq<u8>, b: int)
    requires
        is_best_fan(c, h14, b),
    ensures
        best_fan(c, h14) == b,
{
    let b2 = best_fan(c, h14);
    assert(is_best_fan(c, h14, b2));
    // each bound is met by the other's witness
    if b2 != 0 {
        if exists|a: [Choice; 27]| counted(c, a@, h14) && div_fan(c, a@, h14) == b2 {
            let a = choose|a: [Choice; 27]| counted(c, a@, h14) && div_fan(c, a@, h14) == b2;
            assert(div_fan(c, a@, h14) <= b);
        }
    }
    if b != 0 {
        if exists|a: [Choice; 27]| counted(c, a@, h14) && div_fan(c, a@, h14) == b {
            let a = choose|a: [Choice; 27]| counted(c, a@, h14) && div_fan(c, a@, h14) == b;
            assert(div_fan(c, a@, h14) <= b2);
        }
    }
}

/// A compatible division in the list of all divisions is a compatible division.
proof fn lemma_compatible_in(c: AgariCalculator, divs: Seq<[Choice; 27]>, h14: Seq<u8>)
    requires
        forall|a: [Choice; 27]| divs.contains(a) <==> is_division(a@, h14),
    ensures
        (exists|i: int| 0 <= i < divs.len() && compatible(c, #[trigger] divs[i]@)) == has_compatible(c, h14),
{
    if exists|i: int| 0 <= i < divs.len() && compatible(c, #[trigger] divs[i]@) {
        let i = choose|i: int| 0 <= i < divs.len() && compatible(c, #[trigger] divs[i]@);
        assert(divs.contains(divs[i]));
    }
    if has_compatible(c, h14) {
        let a = choose|a: [Choice; 27]| is_division(a@, h14) && compatible(c, a@);
        assert(divs.contains(a));
        let i = choose|i: int| 0 <= i < divs.len() && divs[i] == a;
        assert(compatible(c, divs[i]@));
    }
}


// ---------------------------------------------------------------------------------------------
// A concealed kan while waiting.

/// The hand before the fourth copy of `tile` was drawn.
pub open spec fn before_draw(tehai: Seq<u8>, tile: int) -> Seq<u8> {
    tehai.update(tile, (tehai[tile] - 1) as u8)
}

/// The hand with one more tile of kind `t`.
pub open spec fn with_tile(h: Seq<u8>, t: int) -> Seq<u8> {
    h.update(t, (h[t] + 1) as u8)
}

/// The hand after the concealed kan of `tile`, with the winning tile `w` added.
pub open spec fn after_kan_with(tehai: Seq<u8>, tile: int, w: int) -> Seq<u8> {
    with_tile(tehai.update(tile, 0u8), w)
}

/// No tile of the void suit is left in `h`.
pub open spec fn void_clear(h: Seq<u8>, ding_que: Option<Suit>) -> bool {
    match ding_que {
        Some(s) => forall|k: int|
            9 * crate::ding_que::spec_suit_id(s) <= k < 9 * crate::ding_que::spec_suit_id(s) + 9
                ==> #[trigger] h[k] == 0,
        None => true,
    }
}

/// `t` is a winning tile of the waiting hand `before`: a fifth copy is impossible, the hand
/// with it is complete (shanten -1) and holds no tile of the void suit.
pub open spec fn is_wait(before: Seq<u8>, len_div3: int, ding_que: Option<Suit>, t: int) -> bool {
    &&& 0 <= t < 27
    &&& before[t] != 4
    &&& spec_calc_all(with_tile(before, t), len_div3) == -1
    &&& void_clear(with_tile(before, t), ding_que)
}

/// The ways a complete hand can be read: its divisions, and seven pairs.
pub open spec fn win_shapes(h: Seq<u8>) -> int {
    division_count(h) + if spec_is_chitoi(h) {
        1int
    } else {
        0int
    }
}

/// The wait `w` survives the kan of `tile`: it is another tile, the hand after the kan still
/// wins on it, and (when `strict`) the complete hand reads in as many ways as before.
pub open spec fn kan_keeps_wait(tehai: Seq<u8>, tile: int, strict: bool, w: int) -> bool {
    let after = after_kan_with(tehai, tile, w);
    let before = with_tile(before_draw(tehai, tile), w);
    &&& w != tile
    &&& has_division(after) || spec_is_chitoi(after)
    &&& strict ==> (has_division(before) || spec_is_chitoi(before)) && win_shapes(after)
        == win_shapes(before)
}

/// A concealed kan of `tile` is allowed while waiting: the hand holds four of it, and every
/// wait of the hand before the draw survives the kan.
pub open spec fn spec_check_ankan(
    tehai: Seq<u8>,
    len_div3: int,
    tile: int,
    strict: bool,
    ding_que: Option<Suit>,
) -> bool {
    &&& 0 <= tile < 27
    &&& tehai[tile] == 4
    &&& forall|w: int|
        #[trigger] is_wait(before_draw(tehai, tile), len_div3, ding_que, w) ==> kan_keeps_wait(
            tehai,
            tile,
            strict,
            w,
        )
}

/// Whether `h` holds no tile of the void suit.
fn void_clear_exec(h: &[u8; 27], ding_que: Option<Suit>) -> (r: bool)
    ensures
        r == void_clear(h@, ding_que),
{
    match ding_que {
        Some(s) => {
            let found = has_suit_tiles(h, s);
            proof {
                let id = crate::ding_que::spec_suit_id(s);
                if !found {
                    assert forall|k: int| 9 * id <= k < 9 * id + 9 implies #[trigger] h@[k] == 0 by {
                        assert(!(h[k] > 0));
                    }
                } else {
                    let i = choose|i: int| 9 * id <= i < 9 * id + 9 && #[trigger] h[i] > 0;
                    assert(h@[i] > 0);
                }
            }
            !found
        },
        None => true,
    }
}

/// Whether the wait `wait` survives the kan of `tile_id` (see `kan_keeps_wait`).
fn wait_survives_kan(
    tehai: &[u8; 27],
    tile_id: usize,
    before: &[u8; 27],
    wait: usize,
    strict: bool,
) -> (r: bool)
    requires
        tile_id < 27,
        wait < 27,
        tehai@[tile_id as int] == 4,
        before@ == before_draw(tehai@, tile_id as int),
        before@[wait as int] != 4,
        tehai@[wait as int] < 255,
    ensures
        r == kan_keeps_wait(tehai@, tile_id as int, strict, wait as int),
{
    if wait == tile_id {
        return false;
    }
    let mut after: [u8; 27] = *tehai;
    after[tile_id] = 0;
    after[wait] = after[wait] + 1;
    assert(after@ =~= after_kan_with(tehai@, tile_id as int, wait as int));
    let divs_after = divisions(&after);
    let chitoi_after = is_valid_chitoi_hand(&after);
    if divs_after.len() == 0 && !chitoi_after {
        return false;
    }
    if strict {
        let mut bw: [u8; 27] = *before;
        bw[wait] = bw[wait] + 1;
        assert(bw@ =~= with_tile(before_draw(tehai@, tile_id as int), wait as int));
        let divs_before = divisions(&bw);
        let chitoi_before = is_valid_chitoi_hand(&bw);
        if divs_before.len() == 0 && !chitoi_before {
            return false;
        }
        let na = divs_after.len();
        let nb = divs_before.len();
        let same = if chitoi_after == chitoi_before {
            na == nb
        } else if chitoi_after {
            nb > 0 && nb - 1 == na
        } else {
            na > 0 && na - 1 == nb
        };
        if !same {
            return false;
        }
    }
    true
}

/// Whether a concealed kan of `tile` keeps the waiting hand `tehai` (which holds the drawn
/// fourth copy) waiting on the same tiles; with `strict`, also with the same ways to read
/// each complete hand. A complete hand that still holds a tile of the void suit does not count
/// as a win.
pub fn check_ankan_in_tenpai(
    tehai: &[u8; 27],
    len_div3: u8,
    tile: Tile,
    strict: bool,
    ding_que: Option<Suit>,
) -> (r: bool)
    requires
        len_div3 <= 4,
        tile@ < 27 && tehai@[tile@ as int] == 4 ==> forall|k: int|
            0 <= k < 27 ==> #[trigger] tehai@[k] < 255,
    ensures
        r == spec_check_ankan(tehai@, len_div3 as int, tile@ as int, strict, ding_que),
{
    let tile_id = tile.as_usize();
    if tile_id >= 27 || tehai[tile_id] != 4 {
        return false;
    }
    let mut before: [u8; 27] = *tehai;
    before[tile_id] = before[tile_id] - 1;
    assert(before@ =~= before_draw(tehai@, tile_id as int));
    let ghost bd = before_draw(tehai@, tile_id as int);
    let mut t: usize = 0;
    while t < 27
        invariant
            t <= 27,
            tile_id < 27,
            tile_id as int == tile@ as int,
            tehai@[tile_id as int] == 4,
            len_div3 <= 4,
            before@ == bd,
            bd == before_draw(tehai@, tile_id as int),
            forall|k: int| 0 <= k < 27 ==> #[trigger] tehai@[k] < 255,
            forall|w: int|
                0 <= w < t && #[trigger] is_wait(bd, len_div3 as int, ding_que, w) ==> kan_keeps_wait(
                    tehai@,
                    tile_id as int,
                    strict,
                    w,
                ),
        decreases 27 - t,
    {
        if before[t] != 4 {
            let mut tmp: [u8; 27] = before;
            tmp[t] = tmp[t] + 1;
            assert(tmp@ =~= with_tile(bd, t as int));
            let sh = calc_all(&tmp, len_div3);
            if sh == -1 && void_clear_exec(&tmp, ding_que) {
                if !wait_survives_kan(tehai, tile_id, &before, t, strict) {
                    assert(is_wait(bd, len_div3 as int, ding_que, t as int));
                    return false;
                }
            }
        }
        t += 1;
    }
    proof {
        assert forall|w: int| #[trigger]
            is_wait(bd, len_div3 as int, ding_que, w) implies kan_keeps_wait(
            tehai@,
            tile_id as int,
            strict,
            w,
        ) by {
            assert(0 <= w < 27);
        }
    }
    true
}


/// A hand wins exactly when it has a winning form (`agari` answers `Some` exactly when
/// `has_yaku` answers true).
pub proof fn lemma_agari_iff_has_yaku(c: AgariCalculator)
    ensures
        spec_agari(c) is Some <==> spec_has_yaku(c),
{
}

/// A hand that still holds a tile of its void suit (花猪), concealed or in a meld, never wins.
pub proof fn lemma_void_suit_blocks_win(c: AgariCalculator)
    requires
        spec_has_ding_que_tiles_in_hand(*c.tehai, c.pons@, c.minkans@, c.ankans@, c.ding_que),
    ensures
        spec_agari(c) is None,
        !spec_has_yaku(c),
{
}

/// Whatever the flags, a first-turn win (天胡/地胡) with that rule on is worth the cap.
pub proof fn lemma_first_turn_win_capped(c: AgariCalculator)
    requires
        spec_agari(c) is Some,
        c.fan_config.tianhu_dihu,
        c.is_tianhu || c.is_dihu,
    ensures
        spec_agari(c) == Some(Agari::Fan(5)),
{
}

/// A concealed kan allowed under the strict rule (same waits and the same ways to read each
/// complete hand) is allowed under the loose rule (same waits).
pub proof fn lemma_strict_ankan_implies_loose(
    tehai: Seq<u8>,
    len_div3: int,
    tile: int,
    ding_que: Option<Suit>,
)
    requires
        spec_check_ankan(tehai, len_div3, tile, true, ding_que),
    ensures
        spec_check_ankan(tehai, len_div3, tile, false, ding_que),
{
    assert forall|w: int| #[trigger] is_wait(before_draw(tehai, tile), len_div3, ding_que, w) implies kan_keeps_wait(
        tehai,
        tile,
        false,
        w,
    ) by {
        assert(kan_keeps_wait(tehai, tile, true, w));
    }
}


proof fn lemma_gen_bounds(c: AgariCalculator, k: int)
    requires
        0 <= k,
    ensures
        0 <= gen_upto(c, k) <= k,
    decreases k,
{
    if k > 0 {
        lemma_gen_bounds(c, k - 1);
    }
}

proof fn lemma_best_fan_exists_below(c: AgariCalculator, h14: Seq<u8>, u: int)
    requires
        0 <= u,
        forall|a: [Choice; 27]| counted(c, a@, h14) ==> #[trigger] div_fan(c, a@, h14) <= u,
        spec_is_chitoi(h14) && !has_fuuro(c) ==> chitoi_fan(c, h14) <= u,
    ensures
        exists|b: int| is_best_fan(c, h14, b),
    decreases u,
{
    if u == 0 {
        assert(is_best_fan(c, h14, 0));
    } else if (exists|a: [Choice; 27]| counted(c, a@, h14) && div_fan(c, a@, h14) == u) || (spec_is_chitoi(h14)
        && !has_fuuro(c) && chitoi_fan(c, h14) == u) {
        assert(is_best_fan(c, h14, u));
    } else {
        assert forall|a: [Choice; 27]| counted(c, a@, h14) implies #[trigger] div_fan(c, a@, h14) <= u - 1 by {
            if div_fan(c, a@, h14) == u {
                assert(counted(c, a@, h14) && div_fan(c, a@, h14) == u);
            }
        }
        lemma_best_fan_exists_below(c, h14, u - 1);
    }
}

/// The best fan over the ways to read a hand always exists, and is at least 0.
pub proof fn lemma_best_fan_exists(c: AgariCalculator, h14: Seq<u8>)
    ensures
        is_best_fan(c, h14, best_fan(c, h14)),
        best_fan(c, h14) >= 0,
{
    lemma_gen_bounds(c, 27);
    assert forall|a: [Choice; 27]| counted(c, a@, h14) implies #[trigger] div_fan(c, a@, h14) <= 40 by {
    }
    lemma_best_fan_exists_below(c, h14, 40);
}

/// A win is worth between 1 and 5 fan.
pub proof fn lemma_fan_range(c: AgariCalculator)
    ensures
        spec_agari(c) matches Some(Agari::Fan(f)) ==> 1 <= f <= 5,
{
    let h14 = hand14_seq(c.tehai@, melds_of(c));
    lemma_best_fan_exists(c, h14);
}

/// Winning by tsumo instead of ron, with nothing else changed and no kan involved, wins on the
/// same hands and adds exactly one fan before the cap.
pub proof fn lemma_tsumo_adds_one_fan(c: AgariCalculator)
    requires
        c.is_ron,
        !c.is_after_kan,
        !c.is_kan_discard,
        !c.is_chankan,
    ensures
        (spec_agari(AgariCalculator { is_ron: false, ..c }) is Some) == (spec_agari(c) is Some),
        spec_agari(c) matches Some(Agari::Fan(f)) ==> spec_agari(AgariCalculator { is_ron: false, ..c })
            == Some(Agari::Fan(if f + 1 > 5 {
            5u8
        } else {
            (f + 1) as u8
        })),
{
    let t = AgariCalculator { is_ron: false, ..c };
    let h14 = hand14_seq(c.tehai@, melds_of(c));
    assert(melds_of(t) == melds_of(c));
    assert(has_fuuro(t) == has_fuuro(c));
    assert(spec_gen(t) == spec_gen(c)) by {
        assert forall|k: int| 0 <= k <= 27 implies gen_upto(t, k) == gen_upto(c, k) by {
            lemma_gen_same(c, t, k);
        }
    }
    lemma_best_fan_exists(c, h14);
    let b = best_fan(c, h14);
    assert forall|a: [Choice; 27]| #[trigger] counted(t, a@, h14) == counted(c, a@, h14) && div_fan(
        t,
        a@,
        h14,
    ) == div_fan(c, a@, h14) by {
        assert(is_tanki(t, a@) == is_tanki(c, a@));
        assert(is_jiaxinwu(t, a@) == is_jiaxinwu(c, a@));
        assert(is_daiyaojiu(t, a@) == is_daiyaojiu(c, a@));
        assert(is_duanyaojiu(t, a@) == is_duanyaojiu(c, a@));
        assert(compatible(t, a@) == compatible(c, a@));
    }
    assert(chitoi_fan(t, h14) == chitoi_fan(c, h14));
    assert(is_best_fan(t, h14, b)) by {
        if b != 0 {
            if exists|a: [Choice; 27]| counted(c, a@, h14) && div_fan(c, a@, h14) == b {
                let a = choose|a: [Choice; 27]| counted(c, a@, h14) && div_fan(c, a@, h14) == b;
                assert(counted(t, a@, h14) && div_fan(t, a@, h14) == b);
            }
        }
        assert forall|a: [Choice; 27]| counted(t, a@, h14) implies div_fan(t, a@, h14) <= b by {
            assert(counted(c, a@, h14));
        }
    }
    lemma_best_fan_unique(t, h14, b);
    assert(has_compatible(t, h14) == has_compatible(c, h14));
    assert(ding_que_ok(t) == ding_que_ok(c));
    assert(base_fan(t) == base_fan(c) + 1);
    assert(kan_fan(t) == 0 && kan_fan(c) == 0);
}

proof fn lemma_gen_same(c: AgariCalculator, t: AgariCalculator, k: int)
    requires
        t == (AgariCalculator { is_ron: t.is_ron, ..c }),
    ensures
        gen_upto(t, k) == gen_upto(c, k),
    decreases k,
{
    if k > 0 {
        lemma_gen_same(c, t, k - 1);
        assert(total_count(t, k - 1) == total_count(c, k - 1));
    }
}


/// 夹心五 is winning on a 5 that sits in the middle of a 4-5-6 run: a division gets it exactly
/// when the winning tile has rank 5 and the division holds a run starting on the tile just
/// below it (the 4 of the same suit). A run 5-6-7 or 3-4-5 through the winning 5 does not count.
pub proof fn lemma_jiaxinwu_is_the_456_run(c: AgariCalculator, d: Seq<Choice>)
    ensures
        is_jiaxinwu(c, d) <==> (c.winning_tile < 27 && c.winning_tile % 9 == 4 && d[c.winning_tile
            - 1].shuntsu > 0),
        c.winning_tile < 27 && c.winning_tile % 9 == 4 && d[c.winning_tile - 1].shuntsu == 0 ==> !is_jiaxinwu(c, d),
{
    if c.winning_tile < 27 && c.winning_tile % 9 == 4 {
        assert((c.winning_tile / 9) * 9 + 3 == c.winning_tile - 1);
    }
}

/// With the 夹心五 rule on, a division is worth exactly one fan more than with it off when it
/// holds the 4-5-6 run around a winning 5, and the same otherwise.
pub proof fn lemma_jiaxinwu_adds_one_fan(c: AgariCalculator, d: Seq<Choice>, h14: Seq<u8>)
    requires
        c.fan_config.jiaxinwu,
    ensures
        div_fan(c, d, h14) == div_fan(
            AgariCalculator { fan_config: FanConfig { jiaxinwu: false, ..c.fan_config }, ..c },
            d,
            h14,
        ) + if c.winning_tile < 27 && c.winning_tile % 9 == 4 && d[c.winning_tile - 1].shuntsu > 0 {
            1int
        } else {
            0int
        },
{
    let off = AgariCalculator { fan_config: FanConfig { jiaxinwu: false, ..c.fan_config }, ..c };
    lemma_jiaxinwu_is_the_456_run(c, d);
    assert(spec_gen(off) == spec_gen(c)) by {
        lemma_gen_same_cfg(c, off, 27);
    }
    assert(is_tanki(off, d) == is_tanki(c, d));
    assert(is_daiyaojiu(off, d) == is_daiyaojiu(c, d));
    assert(is_duanyaojiu(off, d) == is_duanyaojiu(c, d));
}

proof fn lemma_gen_same_cfg(c: AgariCalculator, t: AgariCalculator, k: int)
    requires
        t == (AgariCalculator { fan_config: t.fan_config, ..c }),
    ensures
        gen_upto(t, k) == gen_upto(c, k),
    decreases k,
{
    if k > 0 {
        lemma_gen_same_cfg(c, t, k - 1);
        assert(total_count(t, k - 1) == total_count(c, k - 1));
    }
}

} // verus!
