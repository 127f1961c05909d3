//! What a game log says about scores: the scores at the start of each hand, the final scores
//! and ranks, wins and deal-ins per hand, and the hand each player held when naming its void
//! suit.
use crate::consts::TOTAL_SCORE;
use crate::grp::{tile_count, tiles_to_tehai};
use crate::mjai::{Event, Suit};
use crate::rankings::{Rankings, opt_seq, valid_rankings};
use crate::tile::Tile;
use vstd::prelude::*;

verus! {

broadcast use vstd::array::group_array_axioms;

/// A void suit named, with the concealed hand at that moment.
#[derive(Debug, Clone, Copy)]
pub struct DingQueChoice {
    pub suit: Suit,
    pub tehai: [u8; 27],
}

/// What one hand (kyoku) of the log holds.
#[derive(Debug, Clone, Copy)]
pub struct KyokuStats {
    /// Scores at the start of the hand.
    pub start_scores: [i32; 4],
    /// Each player's void-suit choice, if the log has one.
    pub ding_que: [Option<DingQueChoice>; 4],
    /// Wins per player.
    pub agari_count: [u8; 4],
    /// Ron wins paid per player (deal-ins).
    pub houjuu_count: [u8; 4],
}

/// The scores of a game log.
#[derive(Debug, Clone)]
pub struct LogScores {
    pub kyokus: Vec<KyokuStats>,
    pub final_scores: [i32; 4],
    /// 0 for the top player, 3 for the last.
    pub rank_by_player: [u8; 4],
}

/// Why a log could not be scored.
#[derive(Debug, Clone, Copy, PartialEq, Eq, Structural)]
pub enum LogError {
    /// A scoring event after the last hand start has no deltas.
    MissingDeltas,
    /// No hand starts in the log.
    NoScoringEvent,
}

// ---------------------------------------------------------------------------------------------
// The forward pass.

/// A hand as the log tells it: start scores, void-suit choices (suit and hand), wins and
/// deal-ins.
pub type KyokuView = ([i32; 4], Seq<Option<(Suit, Seq<u8>)>>, [u8; 4], [u8; 4]);

/// One more, stopping at 255.
pub open spec fn sat_inc(x: u8) -> u8 {
    if x < 255 {
        (x + 1) as u8
    } else {
        255
    }
}

/// The counts of the thirteen starting tiles of each player.
pub open spec fn start_hands(tehais: [[Tile; 13]; 4]) -> Seq<Seq<u8>> {
    Seq::new(4, |p: int| Seq::new(27, |k: int| tile_count(tehais[p]@, k, 13) as u8))
}

/// A hand just started with `scores`.
pub open spec fn fresh_kyoku(scores: [i32; 4]) -> KyokuView {
    (scores, seq![None, None, None, None], [0u8, 0u8, 0u8, 0u8], [0u8, 0u8, 0u8, 0u8])
}

/// The forward pass: finished hands, and the hand in progress with each player's counts.
pub type ForwardState = (Seq<KyokuView>, Option<(KyokuView, Seq<Seq<u8>>)>);

/// One event of the forward pass.
pub open spec fn forward_step(st: ForwardState, ev: Event) -> ForwardState {
    match ev {
        Event::StartKyoku { scores, tehais, .. } => (
            match st.1 {
                Some(cur) => st.0.push(cur.0),
                None => st.0,
            },
            Some((fresh_kyoku(scores), start_hands(tehais))),
        ),
        Event::Tsumo { actor, pai } => match st.1 {
            Some((k, h)) => if actor < 4 && pai@ < 27 {
                (st.0, Some((k, h.update(actor as int, h[actor as int].update(pai@ as int, sat_inc(h[actor as int][pai@ as int]))))))
            } else {
                st
            },
            None => st,
        },
        Event::DingQue { actor, suit } => match st.1 {
            Some((k, h)) => if actor < 4 {
                (st.0, Some(((k.0, k.1.update(actor as int, Some((suit, h[actor as int]))), k.2, k.3), h)))
            } else {
                st
            },
            None => st,
        },
        Event::Hora { actor, target, .. } => match st.1 {
            Some((k, h)) => {
                let agari = if actor < 4 {
                    vstd::array::spec_array_update(k.2, actor as int, sat_inc(k.2[actor as int]))
                } else {
                    k.2
                };
                let houjuu = if target < 4 && target != actor {
                    vstd::array::spec_array_update(k.3, target as int, sat_inc(k.3[target as int]))
                } else {
                    k.3
                };
                (st.0, Some(((k.0, k.1, agari, houjuu), h)))
            },
            None => st,
        },
        _ => st,
    }
}

/// The forward pass over the first `n` events.
pub open spec fn forward(events: Seq<Event>, n: int) -> ForwardState
    decreases n,
{
    if n <= 0 {
        (Seq::empty(), None)
    } else {
        forward_step(forward(events, n - 1), events[n - 1])
    }
}

/// The hands of the log, in order.
pub open spec fn kyoku_views(events: Seq<Event>) -> Seq<KyokuView> {
    let st = forward(events, events.len() as int);
    match st.1 {
        Some(cur) => st.0.push(cur.0),
        None => st.0,
    }
}

/// The view of a hand's stats.
pub open spec fn stats_view(k: KyokuStats) -> KyokuView {
    (
        k.start_scores,
        Seq::new(4, |p: int| match k.ding_que[p] {
            Some(c) => Some((c.suit, c.tehai@)),
            None => None,
        }),
        k.agari_count,
        k.houjuu_count,
    )
}

// ---------------------------------------------------------------------------------------------
// The backward pass.

/// The index of the last hand start among the first `n` events, or -1.
pub open spec fn last_start(events: Seq<Event>, n: int) -> int
    decreases n,
{
    if n <= 0 {
        -1
    } else if events[n - 1] is StartKyoku {
        n - 1
    } else {
        last_start(events, n - 1)
    }
}

/// The deltas of a scoring event (a win, a draw or a kan): `Some(deltas)`, else `None`.
pub open spec fn scoring_deltas(ev: Event) -> Option<Option<[i32; 4]>> {
    match ev {
        Event::Hora { deltas, .. } => Some(deltas),
        Event::Ryukyoku { deltas } => Some(deltas),
        Event::Daiminkan { deltas, .. } => Some(deltas),
        Event::Kakan { deltas, .. } => Some(deltas),
        Event::Ankan { deltas, .. } => Some(deltas),
        _ => None,
    }
}

/// Some scoring event at index `lo` or later lacks its deltas.
pub open spec fn missing_after(events: Seq<Event>, lo: int) -> bool {
    exists|i: int| lo <= i < events.len() && #[trigger] scoring_deltas(events[i]) == Some(None::<[i32; 4]>)
}

/// Player `p`'s total over the scoring events from index `k` to the end.
pub open spec fn delta_sum(events: Seq<Event>, k: int, p: int) -> int
    decreases events.len() - k,
{
    if k >= events.len() || k < 0 {
        0
    } else {
        delta_sum(events, k + 1, p) + match scoring_deltas(events[k]) {
            Some(Some(d)) => d[p] as int,
            _ => 0,
        }
    }
}

/// The winners from index `k` to the end, as met walking the log backwards (each once).
pub open spec fn winners_backwards(events: Seq<Event>, k: int) -> Seq<u8>
    decreases events.len() - k,
{
    if k >= events.len() || k < 0 {
        Seq::empty()
    } else {
        let later = winners_backwards(events, k + 1);
        match events[k] {
            Event::Hora { actor, .. } => if later.contains(actor) {
                later
            } else {
                later.push(actor)
            },
            _ => later,
        }
    }
}

/// The scores of the last hand start plus every later delta.
pub open spec fn raw_final(events: Seq<Event>) -> Seq<int> {
    let l = last_start(events, events.len() as int);
    let scores = match events[l] {
        Event::StartKyoku { scores, .. } => scores,
        _ => [0i32, 0i32, 0i32, 0i32],
    };
    Seq::new(4, |p: int| scores[p] + delta_sum(events, l + 1, p))
}

/// The win order of the last hand: by last win, first winner first; `None` if nobody won.
pub open spec fn final_order(events: Seq<Event>) -> Option<Seq<u8>> {
    let w = winners_backwards(events, last_start(events, events.len() as int) + 1).reverse();
    if w.len() == 0 {
        None
    } else {
        Some(w)
    }
}

/// The log can be scored within `i32`: the raw final scores and their total correction fit.
pub open spec fn final_fits(events: Seq<Event>) -> bool {
    let raw = raw_final(events);
    &&& forall|p: int| 0 <= p < 4 ==> i32::MIN <= #[trigger] raw[p] <= i32::MAX
    &&& forall|p: int| 0 <= p < 4 ==> i32::MIN <= #[trigger] raw[p] + (TOTAL_SCORE - (raw[0] + raw[1] + raw[2] + raw[3])) <= i32::MAX
}


/// The scores of a log with `final_fits`: for the last hand start, its scores plus every
/// later delta, corrected on the top player so that they sum to the total; the ranks as
/// `Rankings` gives them with the last hand's win order.
pub open spec fn scored(events: Seq<Event>, final_scores: [i32; 4], rank_by_player: [u8; 4]) -> bool {
    exists|raw: [i32; 4], rk: Rankings|
        #![trigger valid_rankings(rk, raw, final_order(events))]
        {
            &&& forall|p: int| 0 <= p < 4 ==> #[trigger] raw[p] == raw_final(events)[p]
            &&& valid_rankings(rk, raw, final_order(events))
            &&& rank_by_player == rk.rank_by_player
            &&& forall|p: int|
                0 <= p < 4 ==> #[trigger] final_scores[p] == raw[p] + if p == rk.player_by_rank[0] {
                    TOTAL_SCORE - (raw[0] + raw[1] + raw[2] + raw[3])
                } else {
                    0
                }
        }
}

proof fn lemma_last_start_range(events: Seq<Event>, n: int)
    requires
        0 <= n <= events.len(),
    ensures
        -1 <= last_start(events, n) < n,
        last_start(events, n) >= 0 ==> events[last_start(events, n)] is StartKyoku,
        forall|i: int| last_start(events, n) < i < n ==> !(#[trigger] events[i] is StartKyoku),
    decreases n,
{
    if n > 0 {
        lemma_last_start_range(events, n - 1);
    }
}

impl KyokuStats {
    fn fresh(scores: [i32; 4]) -> (r: Self)
        ensures
            stats_view(r) == fresh_kyoku(scores),
    {
        let r = KyokuStats {
            start_scores: scores,
            ding_que: [None, None, None, None],
            agari_count: [0u8; 4],
            houjuu_count: [0u8; 4],
        };
        assert(stats_view(r).1 =~= seq![None, None, None, None]);
        assert(r.agari_count@ =~= [0u8, 0u8, 0u8, 0u8]@);
        assert(r.houjuu_count@ =~= [0u8, 0u8, 0u8, 0u8]@);
        r
    }
}

/// The forward state of the pass so far matches the exec state.
pub open spec fn forward_matches(
    st: ForwardState,
    kyokus: Seq<KyokuStats>,
    cur: Option<KyokuStats>,
    hands: [[u8; 27]; 4],
) -> bool {
    &&& st.0 == kyokus.map_values(|k: KyokuStats| stats_view(k))
    &&& match st.1 {
        None => cur is None,
        Some((kv, h)) => cur matches Some(c) && stats_view(c) == kv && h == Seq::new(4, |p: int| hands[p]@),
    }
}

fn sat_inc_exec(x: u8) -> (r: u8)
    ensures
        r == sat_inc(x),
{
    if x < 255 {
        x + 1
    } else {
        255
    }
}

/// Scores a game log (see `scored`, `kyoku_views`): `MissingDeltas` when a scoring event
/// after the last hand start has no deltas, `NoScoringEvent` when no hand starts.
pub fn load_events(events: &[Event]) -> (r: Result<LogScores, LogError>)
    requires
        !missing_after(events@, last_start(events@, events@.len() as int) + 1) && last_start(events@, events@.len() as int) >= 0
            ==> final_fits(events@),
    ensures
        r is Ok <==> (last_start(events@, events@.len() as int) >= 0 && !missing_after(
            events@,
            last_start(events@, events@.len() as int) + 1,
        )),
        match r {
            Ok(s) => {
                &&& !missing_after(events@, last_start(events@, events@.len() as int) + 1)
                &&& last_start(events@, events@.len() as int) >= 0
                &&& s.kyokus@.map_values(|k: KyokuStats| stats_view(k)) == kyoku_views(events@)
                &&& scored(events@, s.final_scores, s.rank_by_player)
            },
            Err(e) => e == if missing_after(events@, last_start(events@, events@.len() as int) + 1) {
                LogError::MissingDeltas
            } else {
                LogError::NoScoringEvent
            },
        },
{
    let ghost evs = events@;
    // Forward pass.
    let mut kyokus: Vec<KyokuStats> = Vec::new();
    let mut cur: Option<KyokuStats> = None;
    let mut hands: [[u8; 27]; 4] = [[0u8; 27]; 4];
    let mut i: usize = 0;
    assert(kyokus@.map_values(|k: KyokuStats| stats_view(k)) =~= Seq::<KyokuView>::empty());
    while i < events.len()
        invariant
            i <= evs.len(),
            evs == events@,
            forward_matches(forward(evs, i as int), kyokus@, cur, hands),
        decreases events.len() - i,
    {
        let ghost st = forward(evs, i as int);
        assert(forward(evs, i + 1) == forward_step(st, evs[i as int]));
        match &events[i] {
            Event::StartKyoku { scores, tehais, .. } => {
                let ghost k0 = kyokus@;
                match cur {
                    Some(c) => {
                        kyokus.push(c);
                    },
                    None => {},
                }
                assert(kyokus@.map_values(|k: KyokuStats| stats_view(k)) =~= forward(evs, i + 1).0);
                cur = Some(KyokuStats::fresh(*scores));
                let mut p: usize = 0;
                while p < 4
                    invariant
                        p <= 4,
                        forall|q: int|
                            0 <= q < p ==> #[trigger] hands[q]@ == Seq::new(27, |k: int| tile_count(tehais[q]@, k, 13) as u8),
                    decreases 4 - p,
                {
                    hands[p] = tiles_to_tehai(&tehais[p]);
                    proof {
                        assert(hands[p as int]@ =~= Seq::new(27, |k: int| tile_count(tehais[p as int]@, k, 13) as u8));
                    }
                    p += 1;
                }
                assert(Seq::new(4, |q: int| hands[q]@) =~= start_hands(*tehais));
            },
            Event::Tsumo { actor, pai } => {
                match cur {
                    Some(_) => {
                        let a = *actor as usize;
                        let t = pai.as_usize();
                        if a < 4 && t < 27 {
                            let ghost h0 = Seq::new(4, |q: int| hands[q]@);
                            let v = sat_inc_exec(hands[a][t]);
                            hands[a][t] = v;
                            assert(Seq::new(4, |q: int| hands[q]@) =~= h0.update(a as int, h0[a as int].update(t as int, v)));
                        }
                    },
                    None => {},
                }
            },
            Event::DingQue { actor, suit } => {
                match cur {
                    Some(c) => {
                        let a = *actor as usize;
                        if a < 4 {
                            let mut c2 = c;
                            c2.ding_que[a] = Some(DingQueChoice { suit: *suit, tehai: hands[a] });
                            assert(stats_view(c2).1 =~= stats_view(c).1.update(a as int, Some((*suit, hands[a as int]@))));
                            cur = Some(c2);
                        }
                    },
                    None => {},
                }
            },
            Event::Hora { actor, target, .. } => {
                match cur {
                    Some(c) => {
                        let mut c2 = c;
                        let a = *actor as usize;
                        let t = *target as usize;
                        if a < 4 {
                            c2.agari_count[a] = sat_inc_exec(c2.agari_count[a]);
                        }
                        if t < 4 && t != a {
                            c2.houjuu_count[t] = sat_inc_exec(c2.houjuu_count[t]);
                        }
                        proof {
                            let k = stats_view(c);
                            let agari = if *actor < 4 {
                                vstd::array::spec_array_update(k.2, *actor as int, sat_inc(k.2[*actor as int]))
                            } else {
                                k.2
                            };
                            let houjuu = if *target < 4 && *target != *actor {
                                vstd::array::spec_array_update(k.3, *target as int, sat_inc(k.3[*target as int]))
                            } else {
                                k.3
                            };
                            assert(c2.agari_count@ =~= agari@);
                            assert(c2.houjuu_count@ =~= houjuu@);
                            assert(stats_view(c2).1 =~= stats_view(c).1);
                        }
                        cur = Some(c2);
                    },
                    None => {},
                }
            },
            _ => {},
        }
        i += 1;
    }
    match cur {
        Some(c) => {
            kyokus.push(c);
        },
        None => {},
    }
    assert(kyokus@.map_values(|k: KyokuStats| stats_view(k)) =~= kyoku_views(evs));
    // Backward pass: the last hand start.
    let mut l: usize = events.len();
    proof {
        lemma_last_start_range(evs, evs.len() as int);
    }
    while l > 0 && !is_start_kyoku(&events[l - 1])
        invariant
            l <= evs.len(),
            evs == events@,
            last_start(evs, evs.len() as int) == last_start(evs, l as int),
        decreases l,
    {
        l -= 1;
    }
    let ghost ls = last_start(evs, evs.len() as int);
    assert(ls + 1 == l as int);
    // Scoring events after it must carry deltas.
    let mut k: usize = l;
    while k < events.len()
        invariant
            l <= k <= evs.len(),
            evs == events@,
            l as int == last_start(evs, evs.len() as int) + 1,
            forall|j: int| l <= j < k ==> #[trigger] scoring_deltas(evs[j]) != Some(None::<[i32; 4]>),
        decreases events.len() - k,
    {
        let missing = match &events[k] {
            Event::Hora { deltas, .. } => deltas.is_none(),
            Event::Ryukyoku { deltas } => deltas.is_none(),
            Event::Daiminkan { deltas, .. } => deltas.is_none(),
            Event::Kakan { deltas, .. } => deltas.is_none(),
            Event::Ankan { deltas, .. } => deltas.is_none(),
            _ => false,
        };
        if missing {
            assert(scoring_deltas(evs[k as int]) == Some(None::<[i32; 4]>));
            return Err(LogError::MissingDeltas);
        }
        k += 1;
    }
    assert(!missing_after(evs, l as int));
    if l == 0 {
        return Err(LogError::NoScoringEvent);
    }
    let start_scores: [i32; 4] = match &events[l - 1] {
        Event::StartKyoku { scores, .. } => *scores,
        _ => [0i32; 4],
    };
    // Sum the deltas and collect the winners, walking backwards.
    let mut acc: [i128; 4] = [0i128; 4];
    let mut winners: Vec<u8> = Vec::new();
    let mut k: usize = events.len();
    while k > l
        invariant
            l <= k <= evs.len(),
            evs == events@,
            forall|p: int| 0 <= p < 4 ==> #[trigger] acc[p] == delta_sum(evs, k as int, p),
            forall|p: int| 0 <= p < 4 ==> -0x8000_0000 * (evs.len() - k) <= #[trigger] acc[p] <= 0x8000_0000 * (evs.len() - k),
            winners@ == winners_backwards(evs, k as int),
        decreases k,
    {
        let e = k - 1;
        match &events[e] {
            Event::Hora { actor, deltas, .. } => {
                match deltas {
                    Some(d) => {
                        add_deltas(&mut acc, d);
                    },
                    None => {},
                }
                if !contains_u8(&winners, *actor) {
                    winners.push(*actor);
                }
            },
            Event::Ryukyoku { deltas } => {
                match deltas {
                    Some(d) => {
                        add_deltas(&mut acc, d);
                    },
                    None => {},
                }
            },
            Event::Daiminkan { deltas, .. } => {
                match deltas {
                    Some(d) => {
                        add_deltas(&mut acc, d);
                    },
                    None => {},
                }
            },
            Event::Kakan { deltas, .. } => {
                match deltas {
                    Some(d) => {
                        add_deltas(&mut acc, d);
                    },
                    None => {},
                }
            },
            Event::Ankan { deltas, .. } => {
                match deltas {
                    Some(d) => {
                        add_deltas(&mut acc, d);
                    },
                    None => {},
                }
            },
            _ => {},
        }
        k -= 1;
    }
    let mut raw: [i32; 4] = [0i32; 4];
    let mut p: usize = 0;
    while p < 4
        invariant
            p <= 4,
            evs == events@,
            l as int == last_start(evs, evs.len() as int) + 1,
            l > 0,
            final_fits(evs),
            start_scores == match evs[l - 1] {
                Event::StartKyoku { scores, .. } => scores,
                _ => [0i32, 0i32, 0i32, 0i32],
            },
            forall|q: int| 0 <= q < 4 ==> #[trigger] acc[q] == delta_sum(evs, l as int, q),
            forall|q: int| 0 <= q < p ==> #[trigger] raw[q] == raw_final(evs)[q],
        decreases 4 - p,
    {
        assert(raw_final(evs)[p as int] == start_scores[p as int] + acc[p as int]);
        raw[p] = (start_scores[p] as i128 + acc[p]) as i32;
        p += 1;
    }
    // The win order, first winner first.
    let mut order: Vec<u8> = Vec::new();
    let mut j: usize = winners.len();
    while j > 0
        invariant
            j <= winners@.len(),
            order@ == winners@.subrange(j as int, winners@.len() as int).reverse(),
        decreases j,
    {
        order.push(winners[j - 1]);
        assert(order@ =~= winners@.subrange(j - 1, winners@.len() as int).reverse());
        j -= 1;
    }
    assert(winners@.subrange(0, winners@.len() as int) =~= winners@);
    let rk = if order.len() == 0 {
        Rankings::new_with_agari_order(raw, None)
    } else {
        Rankings::new_with_agari_order(raw, Some(order.as_slice()))
    };
    proof {
        if order@.len() == 0 {
            assert(final_order(evs) == None::<Seq<u8>>);
        } else {
            assert(final_order(evs) == Some(order@));
        }
    }
    let sum: i64 = raw[0] as i64 + raw[1] as i64 + raw[2] as i64 + raw[3] as i64;
    let mut final_scores = raw;
    if sum != TOTAL_SCORE as i64 {
        let top = rk.player_by_rank[0] as usize;
        final_scores[top] = (final_scores[top] as i64 + (TOTAL_SCORE as i64 - sum)) as i32;
    }
    proof {
        assert(valid_rankings(rk, raw, final_order(evs)));
        assert forall|q: int| 0 <= q < 4 implies #[trigger] final_scores[q] == raw[q] + if q == rk.player_by_rank[0] {
            TOTAL_SCORE - (raw[0] + raw[1] + raw[2] + raw[3])
        } else {
            0
        } by {}
    }
    Ok(LogScores { kyokus, final_scores, rank_by_player: rk.rank_by_player })
}

fn add_deltas(acc: &mut [i128; 4], d: &[i32; 4])
    requires
        forall|p: int| 0 <= p < 4 ==> -0x10_0000_0000_0000_0000_0000_0000 <= #[trigger] old(acc)[p] <= 0x10_0000_0000_0000_0000_0000_0000,
    ensures
        forall|p: int| 0 <= p < 4 ==> #[trigger] final(acc)[p] == old(acc)[p] + d[p],
{
    let mut p: usize = 0;
    while p < 4
        invariant
            p <= 4,
            forall|q: int| 0 <= q < 4 ==> -0x10_0000_0000_0000_0000_0000_0000 <= #[trigger] old(acc)[q] <= 0x10_0000_0000_0000_0000_0000_0000,
            forall|q: int| 0 <= q < p ==> #[trigger] acc[q] == old(acc)[q] + d[q],
            forall|q: int| p <= q < 4 ==> #[trigger] acc[q] == old(acc)[q],
        decreases 4 - p,
    {
        acc[p] = acc[p] + d[p] as i128;
        p += 1;
    }
}

fn is_start_kyoku(ev: &Event) -> (r: bool)
    ensures
        r == (*ev is StartKyoku),
{
    match ev {
        Event::StartKyoku { .. } => true,
        _ => false,
    }
}

fn contains_u8(v: &Vec<u8>, x: u8) -> (r: bool)
    ensures
        r == v@.contains(x),
{
    let mut i: usize = 0;
    while i < v.len()
        invariant
            i <= v@.len(),
            forall|j: int| 0 <= j < i ==> v@[j] != x,
        decreases v.len() - i,
    {
        if v[i] == x {
            assert(v@[i as int] == x);
            return true;
        }
        i += 1;
    }
    false
}

} // verus!
