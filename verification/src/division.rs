//! Divisions of a hand into one pair and melds (triplets and runs within a suit).
//!
//! A division is written position by position over the 27 tile kinds: at each kind it holds
//! a pair or not, a triplet or not, and some number of runs starting at that kind.
use crate::shanten::Choice;
use vstd::prelude::*;

verus! {

broadcast use vstd::array::group_array_axioms;

/// Runs starting at kind `k` (0 outside the division).
pub open spec fn gshun(d: Seq<Choice>, k: int) -> int {
    if 0 <= k < d.len() {
        d[k].shuntsu as int
    } else {
        0
    }
}

/// Tiles of kind `k` that the division holds (runs do not cross suits).
pub open spec fn gcount(d: Seq<Choice>, k: int) -> int {
    (if d[k].pair {
        2int
    } else {
        0int
    }) + (if d[k].kotsu {
        3int
    } else {
        0int
    }) + gshun(d, k) + (if k % 9 >= 1 {
        gshun(d, k - 1)
    } else {
        0
    }) + (if k % 9 >= 2 {
        gshun(d, k - 2)
    } else {
        0
    })
}

/// At kind `k` the division holds exactly the hand's tiles and starts no run past rank 7.
pub open spec fn pos_ok(d: Seq<Choice>, h: Seq<u8>, k: int) -> bool {
    gcount(d, k) == h[k] as int && (k % 9 >= 7 ==> d[k].shuntsu == 0)
}

/// Pairs at kinds `0..k`.
pub open spec fn pairs_upto(d: Seq<Choice>, k: int) -> int
    decreases k,
{
    if k <= 0 {
        0
    } else {
        pairs_upto(d, k - 1) + if d[k - 1].pair {
            1int
        } else {
            0int
        }
    }
}

/// `d` divides the hand `h` (27 counts) into exactly one pair and melds.
pub open spec fn is_division(d: Seq<Choice>, h: Seq<u8>) -> bool {
    &&& d.len() == 27
    &&& forall|k: int| 0 <= k < 27 ==> #[trigger] pos_ok(d, h, k)
    &&& pairs_upto(d, 27) == 1
}

/// The hand has at least one division.
pub open spec fn has_division(h: Seq<u8>) -> bool {
    exists|d: [Choice; 27]| is_division(d@, h)
}

/// The divisions of the hand.
pub open spec fn divisions_of(h: Seq<u8>) -> Set<[Choice; 27]> {
    Set::new(|d: [Choice; 27]| is_division(d@, h))
}

/// The number of divisions of the hand.
pub open spec fn division_count(h: Seq<u8>) -> int {
    divisions_of(h).len() as int
}

/// `a` and `b` agree at kinds `0..k`.
pub open spec fn agree_upto(a: Seq<Choice>, b: Seq<Choice>, k: int) -> bool {
    forall|j: int| 0 <= j < k ==> #[trigger] a[j] == b[j]
}

/// The four kinds of choice at a kind, numbered pair * 2 + triplet.
pub open spec fn choice_index(c: Choice) -> int {
    (if c.pair {
        2int
    } else {
        0int
    }) + (if c.kotsu {
        1int
    } else {
        0int
    })
}

proof fn lemma_pos_ok_local(a: Seq<Choice>, b: Seq<Choice>, h: Seq<u8>, k: int)
    requires
        0 <= k < a.len(),
        a.len() == b.len(),
        agree_upto(a, b, k + 1),
    ensures
        pos_ok(a, h, k) == pos_ok(b, h, k),
{
    assert(a[k] == b[k]);
    if k >= 1 {
        assert(a[k - 1] == b[k - 1]);
    }
    if k >= 2 {
        assert(a[k - 2] == b[k - 2]);
    }
}

proof fn lemma_pairs_local(a: Seq<Choice>, b: Seq<Choice>, k: int)
    requires
        0 <= k,
        agree_upto(a, b, k),
    ensures
        pairs_upto(a, k) == pairs_upto(b, k),
    decreases k,
{
    if k > 0 {
        assert(agree_upto(a, b, k - 1));
        lemma_pairs_local(a, b, k - 1);
        assert(a[k - 1] == b[k - 1]);
    }
}

proof fn lemma_pairs_mono(a: Seq<Choice>, j: int, k: int)
    requires
        0 <= j <= k,
    ensures
        pairs_upto(a, j) <= pairs_upto(a, k),
    decreases k - j,
{
    if j < k {
        lemma_pairs_mono(a, j, k - 1);
    }
}

proof fn lemma_no_dup_concat<T>(s1: Seq<T>, s2: Seq<T>)
    requires
        s1.no_duplicates(),
        s2.no_duplicates(),
        forall|x: T| s1.contains(x) ==> !s2.contains(x),
    ensures
        (s1 + s2).no_duplicates(),
{
    let s = s1 + s2;
    assert forall|i: int, j: int| 0 <= i < s.len() && 0 <= j < s.len() && i != j implies s[i]
        != s[j] by {
        if i < s1.len() && j >= s1.len() {
            assert(s1.contains(s[i]));
            assert(s2.contains(s[j]));
        } else if j < s1.len() && i >= s1.len() {
            assert(s1.contains(s[j]));
            assert(s2.contains(s[i]));
        } else if i >= s1.len() && j >= s1.len() {
            assert(s[i] == s2[i - s1.len()]);
            assert(s[j] == s2[j - s1.len()]);
        }
    }
}

/// Appends to `out` every division of `h` that agrees with `cur` at kinds `0..k`, once each.
fn enum_divisions(h: &[u8; 27], k: usize, cur: &mut [Choice; 27], npairs: u8, out: &mut Vec<[Choice; 27]>)
    requires
        k <= 27,
        npairs <= 1,
        npairs == pairs_upto(old(cur)@, k as int),
        forall|j: int| 0 <= j < k ==> #[trigger] pos_ok(old(cur)@, h@, j),
    ensures
        agree_upto(final(cur)@, old(cur)@, k as int),
        final(out)@.len() >= old(out)@.len(),
        final(out)@.subrange(0, old(out)@.len() as int) == old(out)@,
        forall|a: [Choice; 27]|
            final(out)@.subrange(old(out)@.len() as int, final(out)@.len() as int).contains(a) <==> (
            is_division(a@, h@) && agree_upto(a@, old(cur)@, k as int)),
        final(out)@.subrange(old(out)@.len() as int, final(out)@.len() as int).no_duplicates(),
    decreases 27 - k,
{
    let ghost prefix = cur@;
    let ghost start = out@.len();
    if k == 27 {
        if npairs == 1 {
            let c = *cur;
            out.push(c);
            proof {
                let added = out@.subrange(start as int, out@.len() as int);
                assert(added =~= seq![c]);
                assert(c@ == prefix);
                assert(is_division(c@, h@));
                assert forall|a: [Choice; 27]| added.contains(a) <==> (is_division(a@, h@)
                    && agree_upto(a@, prefix, 27)) by {
                    if a == c {
                        assert(added[0] == a);
                    }
                    if added.contains(a) {
                        let i = choose|i: int| 0 <= i < added.len() && added[i] == a;
                        assert(a == c);
                    }
                    if agree_upto(a@, prefix, 27) {
                        assert(a@ =~= c@);
                        assert(a =~= c);
                        assert(added[0] == a);
                    }
                }
            }
        } else {
            proof {
                assert forall|a: [Choice; 27]| !(is_division(a@, h@) && agree_upto(
                    a@,
                    prefix,
                    27,
                )) by {
                    if agree_upto(a@, prefix, 27) {
                        lemma_pairs_local(a@, prefix, 27);
                    }
                }
                assert(out@.subrange(start as int, out@.len() as int) =~= Seq::<[Choice; 27]>::empty());
            }
        }
        return;
    }
    let n = k % 9;
    let c1: u8 = if n >= 1 {
        cur[k - 1].shuntsu
    } else {
        0
    };
    let c2: u8 = if n >= 2 {
        cur[k - 2].shuntsu
    } else {
        0
    };
    let mut opt: u8 = 0;
    while opt < 4
        invariant
            k < 27,
            n == k % 9,
            c1 == (if n >= 1 {
                gshun(prefix, k - 1)
            } else {
                0
            }),
            c2 == (if n >= 2 {
                gshun(prefix, k - 2)
            } else {
                0
            }),
            opt <= 4,
            npairs <= 1,
            npairs == pairs_upto(prefix, k as int),
            forall|j: int| 0 <= j < k ==> #[trigger] pos_ok(prefix, h@, j),
            agree_upto(cur@, prefix, k as int),
            prefix.len() == 27,
            out@.len() >= start,
            out@.subrange(0, start as int) == old(out)@,
            start == old(out)@.len(),
            forall|a: [Choice; 27]|
                out@.subrange(start as int, out@.len() as int).contains(a) <==> (is_division(
                    a@,
                    h@,
                ) && agree_upto(a@, prefix, k as int) && choice_index(a@[k as int]) < opt),
            out@.subrange(start as int, out@.len() as int).no_duplicates(),
        decreases 4 - opt,
    {
        let pp: u8 = opt / 2;
        let kk: u8 = opt % 2;
        let ghost before = out@;
        let need: u16 = 2 * pp as u16 + 3 * kk as u16 + c1 as u16 + c2 as u16;
        let valid = !(pp == 1 && npairs == 1) && need <= h[k] as u16 && !(n >= 7 && (h[k] as u16)
            > need);
        if valid {
            let ss = (h[k] as u16 - need) as u8;
            let choice = Choice { pair: pp == 1, kotsu: kk == 1, shuntsu: ss };
            cur[k] = choice;
            let ghost cur1 = cur@;
            proof {
                assert forall|j: int| 0 <= j < k + 1 implies #[trigger] pos_ok(cur1, h@, j) by {
                    if j < k {
                        assert(agree_upto(cur1, prefix, j + 1));
                        lemma_pos_ok_local(cur1, prefix, h@, j);
                    } else {
                        if n >= 1 {
                            assert(cur1[k - 1] == prefix[k - 1]);
                        }
                        if n >= 2 {
                            assert(cur1[k - 2] == prefix[k - 2]);
                        }
                    }
                }
                assert(agree_upto(cur1, prefix, k as int));
                lemma_pairs_local(cur1, prefix, k as int);
            }
            enum_divisions(h, k + 1, cur, npairs + pp, out);
            proof {
                let added_before = before.subrange(start as int, before.len() as int);
                let new_part = out@.subrange(before.len() as int, out@.len() as int);
                assert(out@.subrange(0, before.len() as int) == before);
                assert(out@.subrange(start as int, out@.len() as int) =~= added_before + new_part);
                assert forall|a: [Choice; 27]| added_before.contains(a) implies !new_part.contains(
                    a,
                ) by {
                    if new_part.contains(a) {
                        assert(a@[k as int] == cur1[k as int]);
                    }
                }
                lemma_no_dup_concat(added_before, new_part);
                let all = out@.subrange(start as int, out@.len() as int);
                assert(choice_index(choice) == opt);
                assert forall|a: [Choice; 27]| all.contains(a) <==> (is_division(a@, h@)
                    && agree_upto(a@, prefix, k as int) && choice_index(a@[k as int]) < opt + 1) by {
                    if is_division(a@, h@) && agree_upto(a@, prefix, k as int) && choice_index(
                        a@[k as int],
                    ) < opt + 1 {
                        if choice_index(a@[k as int]) < opt {
                            assert(added_before.contains(a));
                            let i = choose|i: int| 0 <= i < added_before.len() && added_before[i] == a;
                            assert(all[i] == a);
                        } else {
                            // the division's choice at `k` is forced to be `choice`
                            assert(pos_ok(a@, h@, k as int));
                            if n >= 1 {
                                assert(a@[k - 1] == prefix[k - 1]);
                            }
                            if n >= 2 {
                                assert(a@[k - 2] == prefix[k - 2]);
                            }
                            assert(a@[k as int] == choice);
                            assert(agree_upto(a@, cur1, k + 1));
                            assert(new_part.contains(a));
                            let i = choose|i: int| 0 <= i < new_part.len() && new_part[i] == a;
                            assert(all[added_before.len() + i] == a);
                        }
                    }
                    if all.contains(a) {
                        let i = choose|i: int| 0 <= i < all.len() && all[i] == a;
                        if i < added_before.len() {
                            assert(added_before[i] == a);
                            assert(added_before.contains(a));
                        } else {
                            assert(new_part[i - added_before.len()] == a);
                            assert(new_part.contains(a));
                            assert(agree_upto(a@, cur1, k + 1));
                            assert(a@[k as int] == cur1[k as int]);
                            assert(agree_upto(a@, prefix, k as int)) by {
                                assert forall|j: int| 0 <= j < k implies #[trigger] a@[j]
                                    == prefix[j] by {
                                    assert(a@[j] == cur1[j]);
                                }
                            }
                        }
                    }
                }
            }
        } else {
            proof {
                assert forall|a: [Choice; 27]| !(is_division(a@, h@) && agree_upto(
                    a@,
                    prefix,
                    k as int,
                ) && choice_index(a@[k as int]) == opt) by {
                    if is_division(a@, h@) && agree_upto(a@, prefix, k as int) && choice_index(
                        a@[k as int],
                    ) == opt {
                        assert(pos_ok(a@, h@, k as int));
                        if n >= 1 {
                            assert(a@[k - 1] == prefix[k - 1]);
                        }
                        if n >= 2 {
                            assert(a@[k - 2] == prefix[k - 2]);
                        }
                        lemma_pairs_local(a@, prefix, k as int);
                        lemma_pairs_mono(a@, k + 1, 27);
                    }
                }
            }
        }
        opt += 1;
    }
    proof {
        assert forall|a: [Choice; 27]|
            out@.subrange(start as int, out@.len() as int).contains(a) <==> (is_division(a@, h@)
                && agree_upto(a@, prefix, k as int)) by {
            assert(choice_index(a@[k as int]) < 4);
        }
        assert(agree_upto(cur@, prefix, k as int));
    }
}

/// Every division of the hand (27 counts), each exactly once.
pub fn divisions(h: &[u8; 27]) -> (r: Vec<[Choice; 27]>)
    ensures
        forall|a: [Choice; 27]| r@.contains(a) <==> is_division(a@, h@),
        r@.no_duplicates(),
        r@.len() == division_count(h@),
        (r@.len() > 0) == has_division(h@),
{
    let mut cur: [Choice; 27] = [Choice { pair: false, kotsu: false, shuntsu: 0 }; 27];
    let mut out: Vec<[Choice; 27]> = Vec::new();
    enum_divisions(h, 0, &mut cur, 0, &mut out);
    assert(out@.subrange(0, out@.len() as int) =~= out@);
    proof {
        lemma_count_of_divisions(out@, h@);
    }
    out
}

proof fn lemma_count_of_divisions(r: Seq<[Choice; 27]>, h: Seq<u8>)
    requires
        forall|a: [Choice; 27]| r.contains(a) <==> is_division(a@, h),
        r.no_duplicates(),
    ensures
        r.len() == division_count(h),
        (r.len() > 0) == has_division(h),
{
    assert(r.to_set() =~= divisions_of(h));
    r.unique_seq_to_set();
    if r.len() > 0 {
        assert(r.contains(r[0]));
    }
    if has_division(h) {
        let d = choose|d: [Choice; 27]| is_division(d@, h);
        assert(r.contains(d));
    }
}


} // verus!
