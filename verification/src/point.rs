//! Points of a win: 1000 x 2^(fan - 1), capped at 5 fan (16000); no dealer bonus.
use vstd::arithmetic::power2::pow2;
use vstd::prelude::*;

verus! {

/// Points paid for a win: by the discarder on ron, by each payer on tsumo.
#[derive(Debug, Clone, Copy, Default, PartialEq, Eq, Structural)]
pub struct Point {
    pub ron: i32,
    pub tsumo_ko: i32,
}

/// The fan count after the cap of 5.
pub open spec fn capped_fan(fan: u8) -> int {
    if fan > 5 {
        5
    } else {
        fan as int
    }
}

/// 1000 x 2^(fan - 1) for the capped fan, and 0 for 0 fan.
pub open spec fn spec_base_points(fan: u8) -> int {
    if capped_fan(fan) == 0 {
        0
    } else {
        1000 * (pow2((capped_fan(fan) - 1) as nat) as int)
    }
}

impl Point {
    /// Points for `fan` fan: 1000 x 2^(fan - 1), capped at 5 fan; ron and tsumo pay the same.
    pub fn calc_from_fan(fan: u8) -> (r: Self)
        ensures
            r.ron == spec_base_points(fan),
            r.tsumo_ko == spec_base_points(fan),
    {
        let fan = if fan > 5 {
            5
        } else {
            fan
        };
        proof {
            vstd::arithmetic::power2::lemma2_to64();
        }
        let base_points: i32 = if fan == 0 {
            0
        } else if fan == 1 {
            1000
        } else if fan == 2 {
            2000
        } else if fan == 3 {
            4000
        } else if fan == 4 {
            8000
        } else {
            16000
        };
        Self { ron: base_points, tsumo_ko: base_points }
    }

    /// The capped maximum (5 fan), whatever the arguments.
    pub fn yakuman(_is_oya: bool, _count: i32) -> (r: Self)
        ensures
            r.ron == 16000,
            r.tsumo_ko == 16000,
    {
        Self { ron: 16000, tsumo_ko: 16000 }
    }

    /// What `n_payers` players pay together on a tsumo.
    pub fn tsumo_total(self, n_payers: u32) -> (r: i32)
        requires
            i32::MIN <= self.tsumo_ko * (n_payers as i32) <= i32::MAX,
        ensures
            r == self.tsumo_ko * (n_payers as i32),
    {
        self.tsumo_ko * (n_payers as i32)
    }
}


/// Each fan doubles the points, from 1000 at one fan up to the cap.
pub proof fn lemma_points_double(fan: u8)
    requires
        1 <= fan < 5,
    ensures
        spec_base_points((fan + 1) as u8) == 2 * spec_base_points(fan),
{
    vstd::arithmetic::power2::lemma_pow2_unfold(fan as nat);
}

/// Five fan and more pay the cap of 16000.
pub proof fn lemma_points_cap(fan: u8)
    requires
        fan >= 5,
    ensures
        spec_base_points(fan) == 16000,
{
    vstd::arithmetic::power2::lemma2_to64();
}


/// Points lie between 0 and the cap of 16000.
pub proof fn lemma_points_bound(fan: u8)
    ensures
        0 <= spec_base_points(fan) <= 16000,
{
    vstd::arithmetic::power2::lemma2_to64();
}

} // verus!
