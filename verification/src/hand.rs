//! Hand strings such as `"123m 456p 789s"` and the 27-count form of a hand.
//!
//! Only the suits m, p and s with ranks 1-9 exist in this game: no honors, no red fives.
use crate::grp::{lemma_range_nonneg, range_sum};
use crate::tile::{Tile, digit_char, suit_char, tile_name};
use vstd::prelude::*;
use vstd::string::StringExecFns;

verus! {

broadcast use vstd::array::group_array_axioms;

/// Why a hand string was refused.
#[derive(Debug, Clone, Copy, PartialEq, Eq, Structural)]
pub enum HandError {
    /// The string holds a character outside ASCII.
    NonAscii,
    /// `0` (a red five) appears; this game has none.
    RedFive,
    /// `z` (the honor suit) appears; this game has none.
    HonorSuit,
    /// A byte that is no digit, suit letter or blank.
    UnexpectedByte(u8),
    /// Digits at the end of the string have no suit letter.
    TrailingDigits,
    /// Some tile appears more than four times.
    CountExceeds4,
}

/// The suit index of a suit letter: `m` 0, `p` 1, `s` 2.
pub open spec fn suit_of_letter(b: u8) -> int {
    if b == 109 {
        0
    } else if b == 112 {
        1
    } else {
        2
    }
}

/// `b` is a suit letter (`m`, `p` or `s`).
pub open spec fn is_suit_letter(b: u8) -> bool {
    b == 109 || b == 112 || b == 115
}

/// `counts` with one more tile for each rank in `ranks` (1-9), in suit `kind`.
pub open spec fn add_ranks(counts: Seq<int>, ranks: Seq<u8>, kind: int) -> Seq<int>
    decreases ranks.len(),
{
    if ranks.len() == 0 {
        counts
    } else {
        let c = add_ranks(counts, ranks.drop_last(), kind);
        let idx = kind * 9 + ranks.last() - 1;
        c.update(idx, c[idx] + 1)
    }
}

/// One byte of the scan: the counts so far and the ranks still waiting for a suit letter.
pub open spec fn scan_step(st: (Seq<int>, Seq<u8>), b: u8) -> Result<(Seq<int>, Seq<u8>), HandError> {
    if 49 <= b <= 57 {
        Ok((st.0, st.1.push((b - 48) as u8)))
    } else if b == 48 {
        Err(HandError::RedFive)
    } else if is_suit_letter(b) {
        Ok((add_ranks(st.0, st.1, suit_of_letter(b)), Seq::empty()))
    } else if b == 122 {
        Err(HandError::HonorSuit)
    } else if b == 32 || b == 9 || b == 10 {
        Ok(st)
    } else {
        Err(HandError::UnexpectedByte(b))
    }
}

/// The scan of the first `n` bytes, stopping at the first refused byte.
pub open spec fn scan(bytes: Seq<u8>, n: int) -> Result<(Seq<int>, Seq<u8>), HandError>
    decreases n,
{
    if n <= 0 {
        Ok((Seq::new(27, |k: int| 0int), Seq::empty()))
    } else {
        match scan(bytes, n - 1) {
            Ok(st) => scan_step(st, bytes[n - 1]),
            Err(e) => Err(e),
        }
    }
}

/// The 27 counts of a hand string, or why it is refused.
pub open spec fn spec_hand(s: Seq<char>) -> Result<Seq<int>, HandError> {
    if !vstd::utf8::is_ascii_chars(s) {
        Err(HandError::NonAscii)
    } else {
        let bytes = Seq::new(s.len(), |i: int| s[i] as u8);
        match scan(bytes, bytes.len() as int) {
            Err(e) => Err(e),
            Ok(st) => if st.1.len() > 0 {
                Err(HandError::TrailingDigits)
            } else if exists|k: int| 0 <= k < 27 && #[trigger] st.0[k] > 4 {
                Err(HandError::CountExceeds4)
            } else {
                Ok(st.0)
            },
        }
    }
}

proof fn lemma_scan_err(bytes: Seq<u8>, n: int, m: int)
    requires
        0 <= n <= m,
        scan(bytes, n) is Err,
    ensures
        scan(bytes, m) == scan(bytes, n),
    decreases m - n,
{
    if n < m {
        lemma_scan_err(bytes, n, m - 1);
    }
}

proof fn lemma_add_ranks(counts: Seq<int>, ranks: Seq<u8>, kind: int)
    requires
        counts.len() == 27,
        0 <= kind < 3,
        forall|k: int| 0 <= k < 27 ==> #[trigger] counts[k] >= 0,
        forall|j: int| 0 <= j < ranks.len() ==> 1 <= #[trigger] ranks[j] <= 9,
    ensures
        add_ranks(counts, ranks, kind).len() == 27,
        forall|k: int| 0 <= k < 27 ==> #[trigger] add_ranks(counts, ranks, kind)[k] >= counts[k],
    decreases ranks.len(),
{
    if ranks.len() > 0 {
        lemma_add_ranks(counts, ranks.drop_last(), kind);
    }
}

/// The smaller of a count and 5: parsing keeps no more, as five already refuses the hand.
pub open spec fn capped(c: int) -> int {
    if c > 5 {
        5
    } else {
        c
    }
}

/// Adds the waiting ranks to the capped counts of suit `kind`.
fn flush_ranks(ret: &mut [u8; 27], stack: &Vec<u8>, kind: usize, Ghost(counts): Ghost<Seq<int>>)
    requires
        kind < 3,
        counts.len() == 27,
        forall|k: int| 0 <= k < 27 ==> #[trigger] counts[k] >= 0,
        forall|j: int| 0 <= j < stack@.len() ==> 1 <= #[trigger] stack@[j] <= 9,
        forall|k: int| 0 <= k < 27 ==> #[trigger] old(ret)@[k] == capped(counts[k]),
    ensures
        forall|k: int|
            0 <= k < 27 ==> #[trigger] final(ret)@[k] == capped(
                add_ranks(counts, stack@, kind as int)[k],
            ),
{
    let mut j: usize = 0;
    while j < stack.len()
        invariant
            j <= stack@.len(),
            kind < 3,
            counts.len() == 27,
            forall|k: int| 0 <= k < 27 ==> #[trigger] counts[k] >= 0,
            forall|i: int| 0 <= i < stack@.len() ==> 1 <= #[trigger] stack@[i] <= 9,
            forall|k: int|
                0 <= k < 27 ==> #[trigger] ret@[k] == capped(
                    add_ranks(counts, stack@.take(j as int), kind as int)[k],
                ),
        decreases stack.len() - j,
    {
        let idx = kind * 9 + stack[j] as usize - 1;
        proof {
            assert(stack@.take(j + 1).drop_last() =~= stack@.take(j as int));
            lemma_add_ranks(counts, stack@.take(j as int), kind as int);
        }
        if ret[idx] < 5 {
            ret[idx] = ret[idx] + 1;
        }
        j += 1;
    }
    assert(stack@.take(j as int) =~= stack@);
}

/// Parses a hand string (for example `"123m 456p 789s"`) into 27 tile counts. Blanks may
/// separate groups; each run of digits takes the suit letter that follows it.
pub fn hand(s: &str) -> (r: Result<[u8; 27], HandError>)
    ensures
        r matches Ok(a) ==> spec_hand(s@) matches Ok(c) && forall|k: int|
            0 <= k < 27 ==> a@[k] as int == #[trigger] c[k],
        r matches Err(e) ==> spec_hand(s@) == Err::<Seq<int>, HandError>(e),
{
    if !s.is_ascii() {
        return Err(HandError::NonAscii);
    }
    let bytes = s.as_bytes();
    let ghost bs = Seq::new(s@.len(), |i: int| s@[i] as u8);
    proof {
        vstd::string::is_ascii_spec_bytes(s);
        assert(bytes@ =~= bs);
    }
    let mut ret: [u8; 27] = [0u8; 27];
    let mut stack: Vec<u8> = Vec::new();
    let mut i: usize = 0;
    while i < bytes.len()
        invariant
            i <= bytes@.len(),
            bytes@ == bs,
            vstd::utf8::is_ascii_chars(s@),
            bs == Seq::new(s@.len(), |i: int| s@[i] as u8),
            scan(bs, i as int) matches Ok(st) && st.1 == stack@ && st.0.len() == 27 && (forall|
                k: int,
            | 0 <= k < 27 ==> #[trigger] st.0[k] >= 0) && (forall|k: int|
                0 <= k < 27 ==> #[trigger] ret@[k] == capped(st.0[k])),
            forall|j: int| 0 <= j < stack@.len() ==> 1 <= #[trigger] stack@[j] <= 9,
        decreases bytes.len() - i,
    {
        let b = bytes[i];
        let ghost st = scan(bs, i as int)->Ok_0;
        assert(scan(bs, i + 1) == scan_step(st, b));
        if b >= 49 && b <= 57 {
            stack.push(b - 48);
        } else if b == 48 {
            proof {
                lemma_scan_err(bs, i + 1, bs.len() as int);
            }
            return Err(HandError::RedFive);
        } else if b == 109 || b == 112 || b == 115 {
            let kind: usize = if b == 109 {
                0
            } else if b == 112 {
                1
            } else {
                2
            };
            flush_ranks(&mut ret, &stack, kind, Ghost(st.0));
            proof {
                lemma_add_ranks(st.0, stack@, kind as int);
            }
            stack = Vec::new();
        } else if b == 122 {
            proof {
                lemma_scan_err(bs, i + 1, bs.len() as int);
            }
            return Err(HandError::HonorSuit);
        } else if b == 32 || b == 9 || b == 10 {
        } else {
            proof {
                lemma_scan_err(bs, i + 1, bs.len() as int);
            }
            return Err(HandError::UnexpectedByte(b));
        }
        i += 1;
    }
    let ghost st = scan(bs, bs.len() as int)->Ok_0;
    if stack.len() > 0 {
        return Err(HandError::TrailingDigits);
    }
    let mut k: usize = 0;
    while k < 27
        invariant
            k <= 27,
            vstd::utf8::is_ascii_chars(s@),
            bs == Seq::new(s@.len(), |i: int| s@[i] as u8),
            scan(bs, bs.len() as int) == Ok::<(Seq<int>, Seq<u8>), HandError>(st),
            st.1.len() == 0,
            st.0.len() == 27,
            forall|j: int| 0 <= j < 27 ==> #[trigger] ret@[j] == capped(st.0[j]),
            forall|j: int| 0 <= j < k ==> #[trigger] st.0[j] <= 4,
        decreases 27 - k,
    {
        if ret[k] > 4 {
            assert(st.0[k as int] > 4);
            return Err(HandError::CountExceeds4);
        }
        k += 1;
    }
    Ok(ret)
}


/// The tile ids of a 27-count hand in order, each kind repeated by its count, for kinds
/// below `k`.
pub open spec fn expand(tiles: Seq<u8>, k: int) -> Seq<u8>
    decreases k,
{
    if k <= 0 {
        Seq::empty()
    } else {
        expand(tiles, k - 1) + Seq::new(tiles[k - 1] as nat, |i: int| (k - 1) as u8)
    }
}

proof fn lemma_expand_len(tiles: Seq<u8>, k: int)
    requires
        0 <= k <= 27,
    ensures
        expand(tiles, k).len() <= 255 * k,
    decreases k,
{
    if k > 0 {
        lemma_expand_len(tiles, k - 1);
    }
}

/// The tiles of a 27-count hand, one entry per tile, in id order.
pub fn tile27_to_vec(tiles: &[u8; 27]) -> (r: Vec<Tile>)
    ensures
        r@.len() == expand(tiles@, 27).len(),
        forall|i: int| 0 <= i < r@.len() ==> #[trigger] r@[i]@ == expand(tiles@, 27)[i],
{
    let mut ret: Vec<Tile> = Vec::new();
    let mut tid: usize = 0;
    while tid < 27
        invariant
            tid <= 27,
            ret@.len() == expand(tiles@, tid as int).len(),
            forall|i: int| 0 <= i < ret@.len() ==> #[trigger] ret@[i]@ == expand(tiles@, tid as int)[i],
        decreases 27 - tid,
    {
        let count = tiles[tid];
        let ghost base = expand(tiles@, tid as int);
        proof {
            lemma_expand_len(tiles@, tid as int);
        }
        let mut c: u8 = 0;
        while c < count
            invariant
                c <= count,
                tid < 27,
                count == tiles@[tid as int],
                base == expand(tiles@, tid as int),
                base.len() <= 255 * 26,
                ret@.len() == base.len() + c,
                forall|i: int| 0 <= i < base.len() ==> #[trigger] ret@[i]@ == base[i],
                forall|i: int| base.len() <= i < ret@.len() ==> #[trigger] ret@[i]@ == tid as u8,
            decreases count - c,
        {
            ret.push(Tile::new_unchecked(tid as u8));
            c += 1;
        }
        proof {
            let next = expand(tiles@, tid + 1);
            assert(next =~= base + Seq::new(count as nat, |i: int| tid as u8));
            assert forall|i: int| 0 <= i < ret@.len() implies #[trigger] ret@[i]@ == next[i] by {
                if i >= base.len() {
                    assert(next[i] == tid as u8);
                }
            }
        }
        tid += 1;
    }
    ret
}

/// The mjai names of the tiles of a hand, one per tile, in id order (e.g. `1m 2m 3m ...`).
pub fn tehai_to_strings(tehai: &[u8; 27]) -> (r: Vec<String>)
    ensures
        r@.len() == expand(tehai@, 27).len(),
        forall|i: int| 0 <= i < r@.len() ==> #[trigger] r@[i]@ == tile_name(expand(tehai@, 27)[i] as int),
{
    let tiles = tile27_to_vec(tehai);
    let mut out: Vec<String> = Vec::new();
    let mut i: usize = 0;
    while i < tiles.len()
        invariant
            i <= tiles@.len(),
            tiles@.len() == expand(tehai@, 27).len(),
            forall|j: int| 0 <= j < tiles@.len() ==> #[trigger] tiles@[j]@ == expand(tehai@, 27)[j],
            out@.len() == i,
            forall|j: int| 0 <= j < i ==> #[trigger] out@[j]@ == tile_name(expand(tehai@, 27)[j] as int),
        decreases tiles.len() - i,
    {
        let name = tiles[i].to_string();
        out.push(name);
        i += 1;
    }
    out
}

/// The rank digits of suit `kind` for ranks below `n`, each repeated by its count.
pub open spec fn suit_digits(tiles: Seq<u8>, kind: int, n: int) -> Seq<char>
    decreases n,
{
    if n <= 0 {
        Seq::empty()
    } else {
        suit_digits(tiles, kind, n - 1) + Seq::new(
            tiles[kind * 9 + n - 1] as nat,
            |i: int| digit_char(n - 1),
        )
    }
}

/// The group of suit `kind`: its digits and the suit letter, or nothing for an empty suit.
pub open spec fn suit_group(tiles: Seq<u8>, kind: int) -> Seq<char> {
    let d = suit_digits(tiles, kind, 9);
    if d.len() > 0 {
        d.push(suit_char(kind))
    } else {
        d
    }
}

/// The non-empty groups of suits below `kind`, separated by single blanks.
pub open spec fn joined_groups(tiles: Seq<u8>, kind: int) -> Seq<char>
    decreases kind,
{
    if kind <= 0 {
        Seq::empty()
    } else {
        let prev = joined_groups(tiles, kind - 1);
        let g = suit_group(tiles, kind - 1);
        if g.len() == 0 {
            prev
        } else if prev.len() == 0 {
            g
        } else {
            prev + seq![' '] + g
        }
    }
}

/// The one-character string of a rank digit.
fn digit_str(num: usize) -> (r: &'static str)
    requires
        num < 9,
    ensures
        r@ == seq![digit_char(num as int)],
{
    match num {
        0 => {
            proof {
                reveal_strlit("1");
            }
            "1"
        },
        1 => {
            proof {
                reveal_strlit("2");
            }
            "2"
        },
        2 => {
            proof {
                reveal_strlit("3");
            }
            "3"
        },
        3 => {
            proof {
                reveal_strlit("4");
            }
            "4"
        },
        4 => {
            proof {
                reveal_strlit("5");
            }
            "5"
        },
        5 => {
            proof {
                reveal_strlit("6");
            }
            "6"
        },
        6 => {
            proof {
                reveal_strlit("7");
            }
            "7"
        },
        7 => {
            proof {
                reveal_strlit("8");
            }
            "8"
        },
        _ => {
            proof {
                reveal_strlit("9");
            }
            "9"
        },
    }
}

/// The one-character string of a suit letter.
fn suit_str(kind: usize) -> (r: &'static str)
    requires
        kind < 3,
    ensures
        r@ == seq![suit_char(kind as int)],
{
    if kind == 0 {
        proof {
            reveal_strlit("m");
        }
        "m"
    } else if kind == 1 {
        proof {
            reveal_strlit("p");
        }
        "p"
    } else {
        proof {
            reveal_strlit("s");
        }
        "s"
    }
}

/// The group string of one suit (see `suit_group`).
fn suit_group_string(tiles: &[u8; 27], kind: usize) -> (r: String)
    requires
        kind < 3,
    ensures
        r@ == suit_group(tiles@, kind as int),
{
    let mut partial = String::new();
    let mut num: usize = 0;
    while num < 9
        invariant
            num <= 9,
            kind < 3,
            partial@ == suit_digits(tiles@, kind as int, num as int),
        decreases 9 - num,
    {
        let count = tiles[kind * 9 + num];
        let ghost base = partial@;
        let mut c: u8 = 0;
        while c < count
            invariant
                c <= count,
                num < 9,
                partial@ == base + Seq::new(c as nat, |i: int| digit_char(num as int)),
            decreases count - c,
        {
            partial.append(digit_str(num));
            proof {
                assert(partial@ =~= base + Seq::new((c + 1) as nat, |i: int| digit_char(num as int)));
            }
            c += 1;
        }
        num += 1;
    }
    if partial.unicode_len() > 0 {
        partial.append(suit_str(kind));
    }
    partial
}

/// The hand string of a 27-count hand, e.g. `"33567m 345678p 678s"`: per suit the rank
/// digits repeated by count and the suit letter, empty suits left out, groups separated by
/// single blanks.
pub fn tiles_to_string(tiles: &[u8; 27]) -> (r: String)
    ensures
        r@ == joined_groups(tiles@, 3),
{
    let mut out = String::new();
    let mut kind: usize = 0;
    while kind < 3
        invariant
            kind <= 3,
            out@ == joined_groups(tiles@, kind as int),
        decreases 3 - kind,
    {
        let g = suit_group_string(tiles, kind);
        if g.unicode_len() > 0 {
            if out.unicode_len() > 0 {
                proof {
                    reveal_strlit(" ");
                }
                out.append(" ");
            }
            out.append(g.as_str());
        }
        kind += 1;
    }
    out
}


// ---------------------------------------------------------------------------------------------
// Printing a hand and parsing it back.

/// The bytes of an ASCII string.
pub open spec fn bytes_of(s: Seq<char>) -> Seq<u8> {
    Seq::new(s.len(), |i: int| s[i] as u8)
}

/// The scan of the first `n` bytes starting from the state `st`.
pub open spec fn scan_from(st: (Seq<int>, Seq<u8>), bytes: Seq<u8>, n: int) -> Result<
    (Seq<int>, Seq<u8>),
    HandError,
>
    decreases n,
{
    if n <= 0 {
        Ok(st)
    } else {
        match scan_from(st, bytes, n - 1) {
            Ok(st1) => scan_step(st1, bytes[n - 1]),
            Err(e) => Err(e),
        }
    }
}

proof fn lemma_scan_is_scan_from(bytes: Seq<u8>, n: int)
    ensures
        scan(bytes, n) == scan_from((Seq::new(27, |k: int| 0int), Seq::empty()), bytes, n),
    decreases n,
{
    if n > 0 {
        lemma_scan_is_scan_from(bytes, n - 1);
    }
}

/// The scan of a prefix sees only the prefix.
proof fn lemma_scan_from_prefix(st: (Seq<int>, Seq<u8>), a: Seq<u8>, b: Seq<u8>, n: int)
    requires
        0 <= n <= a.len(),
        n <= b.len(),
        a.take(n) == b.take(n),
    ensures
        scan_from(st, a, n) == scan_from(st, b, n),
    decreases n,
{
    if n > 0 {
        assert(a.take(n - 1) =~= b.take(n - 1)) by {
            assert forall|i: int| 0 <= i < n - 1 implies #[trigger] a.take(n - 1)[i] == b.take(n - 1)[i] by {
                assert(a.take(n)[i] == b.take(n)[i]);
            }
        }
        assert(a[n - 1] == a.take(n)[n - 1]);
        assert(b[n - 1] == b.take(n)[n - 1]);
        lemma_scan_from_prefix(st, a, b, n - 1);
    }
}

/// Scanning `a + b` is scanning `a`, then `b` from where `a` left off.
proof fn lemma_scan_from_concat(st: (Seq<int>, Seq<u8>), a: Seq<u8>, b: Seq<u8>, j: int)
    requires
        0 <= j <= b.len(),
    ensures
        scan_from(st, a + b, a.len() + j) == match scan_from(st, a, a.len() as int) {
            Ok(st1) => scan_from(st1, b, j),
            Err(e) => Err(e),
        },
    decreases j,
{
    if j == 0 {
        assert((a + b).take(a.len() as int) =~= a.take(a.len() as int));
        lemma_scan_from_prefix(st, a + b, a, a.len() as int);
    } else {
        lemma_scan_from_concat(st, a, b, j - 1);
        assert((a + b)[a.len() + j - 1] == b[j - 1]);
    }
}

proof fn lemma_bytes_of_concat(a: Seq<char>, b: Seq<char>)
    ensures
        bytes_of(a + b) == bytes_of(a) + bytes_of(b),
{
    assert(bytes_of(a + b) =~= bytes_of(a) + bytes_of(b));
}


/// The ranks (1-9) of suit `kind` below `n`, each repeated by its count.
pub open spec fn ranks_of(t: Seq<u8>, kind: int, n: int) -> Seq<u8>
    decreases n,
{
    if n <= 0 {
        Seq::empty()
    } else {
        ranks_of(t, kind, n - 1) + Seq::new(t[kind * 9 + n - 1] as nat, |i: int| n as u8)
    }
}

proof fn lemma_digit_byte(x: int)
    requires
        0 <= x < 9,
    ensures
        digit_char(x) as u8 == x + 49,
        '\0' <= digit_char(x) <= '\u{7f}',
{
}

/// Scanning a run of one digit pushes its rank that many times.
proof fn lemma_scan_digit_run(st: (Seq<int>, Seq<u8>), x: int, cnt: int)
    requires
        0 <= x < 9,
        0 <= cnt,
    ensures
        scan_from(st, bytes_of(Seq::new(cnt as nat, |i: int| digit_char(x))), cnt) == Ok::<
            (Seq<int>, Seq<u8>),
            HandError,
        >((st.0, st.1 + Seq::new(cnt as nat, |i: int| (x + 1) as u8))),
    decreases cnt,
{
    lemma_digit_byte(x);
    let b = bytes_of(Seq::new(cnt as nat, |i: int| digit_char(x)));
    if cnt > 0 {
        let b1 = bytes_of(Seq::new((cnt - 1) as nat, |i: int| digit_char(x)));
        lemma_scan_digit_run(st, x, cnt - 1);
        assert(b.take(cnt - 1) =~= b1.take(cnt - 1));
        lemma_scan_from_prefix(st, b, b1, cnt - 1);
        assert(st.1 + Seq::new(cnt as nat, |i: int| (x + 1) as u8) =~= (st.1 + Seq::new(
            (cnt - 1) as nat,
            |i: int| (x + 1) as u8,
        )).push((x + 1) as u8));
    } else {
        assert(st.1 + Seq::new(0nat, |i: int| (x + 1) as u8) =~= st.1);
    }
}

/// Scanning the digits of a suit pushes its ranks.
proof fn lemma_scan_digits(st: (Seq<int>, Seq<u8>), t: Seq<u8>, kind: int, n: int)
    requires
        0 <= kind < 3,
        0 <= n <= 9,
        t.len() == 27,
    ensures
        scan_from(st, bytes_of(suit_digits(t, kind, n)), suit_digits(t, kind, n).len() as int)
            == Ok::<(Seq<int>, Seq<u8>), HandError>((st.0, st.1 + ranks_of(t, kind, n))),
    decreases n,
{
    if n == 0 {
        assert(st.1 + ranks_of(t, kind, 0) =~= st.1);
    } else {
        let a = suit_digits(t, kind, n - 1);
        let cnt = t[kind * 9 + n - 1] as int;
        let run = Seq::new(cnt as nat, |i: int| digit_char(n - 1));
        assert(suit_digits(t, kind, n) == a + run);
        lemma_bytes_of_concat(a, run);
        lemma_scan_digits(st, t, kind, n - 1);
        lemma_scan_from_concat(st, bytes_of(a), bytes_of(run), cnt);
        let st1 = (st.0, st.1 + ranks_of(t, kind, n - 1));
        lemma_scan_digit_run(st1, n - 1, cnt);
        assert(st1.1 + Seq::new(cnt as nat, |i: int| (n - 1 + 1) as u8) =~= st.1 + ranks_of(
            t,
            kind,
            n,
        ));
    }
}


proof fn lemma_add_ranks_concat(c: Seq<int>, r1: Seq<u8>, r2: Seq<u8>, kind: int)
    ensures
        add_ranks(c, r1 + r2, kind) == add_ranks(add_ranks(c, r1, kind), r2, kind),
    decreases r2.len(),
{
    if r2.len() == 0 {
        assert(r1 + r2 =~= r1);
    } else {
        assert((r1 + r2).drop_last() =~= r1 + r2.drop_last());
        lemma_add_ranks_concat(c, r1, r2.drop_last(), kind);
    }
}

/// Adding one rank `cnt` times adds `cnt` to its kind.
proof fn lemma_add_ranks_run(c: Seq<int>, rank: int, cnt: int, kind: int)
    requires
        c.len() == 27,
        0 <= kind < 3,
        1 <= rank <= 9,
        0 <= cnt,
    ensures
        add_ranks(c, Seq::new(cnt as nat, |i: int| rank as u8), kind) == c.update(
            kind * 9 + rank - 1,
            c[kind * 9 + rank - 1] + cnt,
        ),
    decreases cnt,
{
    let idx = kind * 9 + rank - 1;
    if cnt == 0 {
        assert(c.update(idx, c[idx] + 0) =~= c);
    } else {
        assert(Seq::new(cnt as nat, |i: int| rank as u8).drop_last() =~= Seq::new(
            (cnt - 1) as nat,
            |i: int| rank as u8,
        ));
        lemma_add_ranks_run(c, rank, cnt - 1, kind);
        assert(c.update(idx, c[idx] + (cnt - 1)).update(idx, c[idx] + (cnt - 1) + 1) =~= c.update(
            idx,
            c[idx] + cnt,
        ));
    }
}

/// Adding the ranks of suit `kind` below `n` adds the hand's counts there.
proof fn lemma_add_suit(c: Seq<int>, t: Seq<u8>, kind: int, n: int)
    requires
        c.len() == 27,
        t.len() == 27,
        0 <= kind < 3,
        0 <= n <= 9,
    ensures
        add_ranks(c, ranks_of(t, kind, n), kind) == Seq::new(
            27,
            |k: int| c[k] + if kind * 9 <= k < kind * 9 + n {
                t[k] as int
            } else {
                0
            },
        ),
    decreases n,
{
    if n == 0 {
        assert(add_ranks(c, Seq::<u8>::empty(), kind) =~= Seq::new(
            27,
            |k: int| c[k] + if kind * 9 <= k < kind * 9 + 0 {
                t[k] as int
            } else {
                0
            },
        ));
    } else {
        let cnt = t[kind * 9 + n - 1] as int;
        lemma_add_suit(c, t, kind, n - 1);
        let c1 = add_ranks(c, ranks_of(t, kind, n - 1), kind);
        lemma_add_ranks_concat(c, ranks_of(t, kind, n - 1), Seq::new(cnt as nat, |i: int| n as u8), kind);
        assert(Seq::new(cnt as nat, |i: int| n as u8) =~= Seq::new(cnt as nat, |i: int| (n as int) as u8));
        lemma_add_ranks_run(c1, n, cnt, kind);
        assert(c1.update(kind * 9 + n - 1, c1[kind * 9 + n - 1] + cnt) =~= Seq::new(
            27,
            |k: int| c[k] + if kind * 9 <= k < kind * 9 + n {
                t[k] as int
            } else {
                0
            },
        ));
    }
}

/// The counts of the hand's first `kind` suits.
pub open spec fn counts_upto(t: Seq<u8>, kind: int) -> Seq<int> {
    Seq::new(
        27,
        |k: int| if k < 9 * kind {
            t[k] as int
        } else {
            0
        },
    )
}

/// The digits of a suit number its tiles.
proof fn lemma_suit_digits_len(t: Seq<u8>, kind: int, n: int)
    requires
        0 <= n <= 9,
    ensures
        suit_digits(t, kind, n).len() == range_sum(t, kind * 9, n),
        suit_digits(t, kind, n).len() == 0 ==> forall|j: int| 0 <= j < n ==> #[trigger] t[kind * 9 + j] == 0,
    decreases n,
{
    if n > 0 {
        lemma_suit_digits_len(t, kind, n - 1);
        lemma_range_nonneg(t, kind * 9, n - 1);
    }
}


/// Scanning a suit's group after the suits before it counts that suit too.
proof fn lemma_scan_group(t: Seq<u8>, kind: int)
    requires
        t.len() == 27,
        0 <= kind < 3,
    ensures
        scan_from((counts_upto(t, kind), Seq::empty()), bytes_of(suit_group(t, kind)), suit_group(
            t,
            kind,
        ).len() as int) == Ok::<(Seq<int>, Seq<u8>), HandError>(
            (counts_upto(t, kind + 1), Seq::empty()),
        ),
        suit_group(t, kind).len() == 0 ==> counts_upto(t, kind + 1) == counts_upto(t, kind),
{
    let st = (counts_upto(t, kind), Seq::<u8>::empty());
    let d = suit_digits(t, kind, 9);
    lemma_scan_digits(st, t, kind, 9);
    lemma_suit_digits_len(t, kind, 9);
    lemma_add_suit(counts_upto(t, kind), t, kind, 9);
    assert(Seq::<u8>::empty() + ranks_of(t, kind, 9) =~= ranks_of(t, kind, 9));
    assert(add_ranks(counts_upto(t, kind), ranks_of(t, kind, 9), kind) =~= counts_upto(t, kind + 1));
    if d.len() > 0 {
        let letter = seq![suit_char(kind)];
        assert(suit_group(t, kind) =~= d + letter);
        lemma_bytes_of_concat(d, letter);
        lemma_scan_from_concat(st, bytes_of(d), bytes_of(letter), 1);
        let st1 = (counts_upto(t, kind), ranks_of(t, kind, 9));
        let b = bytes_of(letter)[0];
        assert(b == suit_char(kind) as u8);
        assert(is_suit_letter(b) && suit_of_letter(b) == kind) by {
            if kind == 0 {
            } else if kind == 1 {
            } else {
            }
        }
        assert(scan_from(st1, bytes_of(letter), 0) == Ok::<(Seq<int>, Seq<u8>), HandError>(st1));
        assert(scan_from(st1, bytes_of(letter), 1) == scan_step(st1, b));
    } else {
        assert(counts_upto(t, kind + 1) =~= counts_upto(t, kind)) by {
            assert forall|k: int| 0 <= k < 27 implies counts_upto(t, kind + 1)[k] == counts_upto(
                t,
                kind,
            )[k] by {
                if kind * 9 <= k < kind * 9 + 9 {
                    assert(t[kind * 9 + (k - kind * 9)] == 0);
                }
            }
        }
    }
}

/// No suit printed before `kind` means no tile there.
proof fn lemma_joined_empty(t: Seq<u8>, kind: int)
    requires
        t.len() == 27,
        0 <= kind <= 3,
        joined_groups(t, kind).len() == 0,
    ensures
        counts_upto(t, kind) == Seq::new(27, |k: int| 0int),
    decreases kind,
{
    if kind > 0 {
        lemma_joined_empty(t, kind - 1);
        lemma_scan_group(t, kind - 1);
    } else {
        assert(counts_upto(t, 0) =~= Seq::new(27, |k: int| 0int));
    }
}

/// Scanning the printed suits before `kind` counts them.
proof fn lemma_scan_joined(t: Seq<u8>, kind: int)
    requires
        t.len() == 27,
        0 <= kind <= 3,
    ensures
        scan_from((Seq::new(27, |k: int| 0int), Seq::empty()), bytes_of(joined_groups(t, kind)),
            joined_groups(t, kind).len() as int)
            == Ok::<(Seq<int>, Seq<u8>), HandError>((counts_upto(t, kind), Seq::empty())),
    decreases kind,
{
    let init = (Seq::new(27, |k: int| 0int), Seq::<u8>::empty());
    if kind == 0 {
        assert(counts_upto(t, 0) =~= Seq::new(27, |k: int| 0int));
    } else {
        lemma_scan_joined(t, kind - 1);
        lemma_scan_group(t, kind - 1);
        let prev = joined_groups(t, kind - 1);
        let g = suit_group(t, kind - 1);
        if g.len() == 0 {
        } else if prev.len() == 0 {
            lemma_joined_empty(t, kind - 1);
            assert(joined_groups(t, kind) == g);
            assert(init == (counts_upto(t, kind - 1), Seq::<u8>::empty()));
        } else {
            let blank = seq![' '];
            assert(joined_groups(t, kind) == prev + blank + g);
            lemma_bytes_of_concat(prev + blank, g);
            lemma_bytes_of_concat(prev, blank);
            lemma_scan_from_concat(init, bytes_of(prev) + bytes_of(blank), bytes_of(g), g.len() as int);
            lemma_scan_from_concat(init, bytes_of(prev), bytes_of(blank), 1);
            let s1 = (counts_upto(t, kind - 1), Seq::<u8>::empty());
            assert(bytes_of(blank)[0] == 32);
            assert(scan_from(s1, bytes_of(blank), 0) == Ok::<(Seq<int>, Seq<u8>), HandError>(s1));
            assert(scan_from(s1, bytes_of(blank), 1) == Ok::<(Seq<int>, Seq<u8>), HandError>(s1));
            assert((bytes_of(prev) + bytes_of(blank)).len() == prev.len() + 1);
            assert(joined_groups(t, kind).len() == (bytes_of(prev) + bytes_of(blank)).len() + g.len());
        }
    }
}

proof fn lemma_digits_ascii(t: Seq<u8>, kind: int, n: int)
    requires
        0 <= n <= 9,
    ensures
        vstd::utf8::is_ascii_chars(suit_digits(t, kind, n)),
    decreases n,
{
    if n > 0 {
        lemma_digits_ascii(t, kind, n - 1);
        lemma_digit_byte(n - 1);
    }
}

proof fn lemma_joined_ascii(t: Seq<u8>, kind: int)
    requires
        0 <= kind <= 3,
    ensures
        vstd::utf8::is_ascii_chars(joined_groups(t, kind)),
    decreases kind,
{
    if kind > 0 {
        lemma_joined_ascii(t, kind - 1);
        lemma_digits_ascii(t, kind - 1, 9);
    }
}

/// Printing a hand of at most four of a kind and parsing the text gives the hand back.
pub proof fn lemma_hand_round_trip(tiles: [u8; 27])
    requires
        forall|k: int| 0 <= k < 27 ==> #[trigger] tiles[k] <= 4,
    ensures
        spec_hand(joined_groups(tiles@, 3)) == Ok::<Seq<int>, HandError>(
            Seq::new(27, |k: int| tiles[k] as int),
        ),
{
    let t = tiles@;
    let s = joined_groups(t, 3);
    lemma_joined_ascii(t, 3);
    lemma_scan_joined(t, 3);
    lemma_scan_is_scan_from(bytes_of(s), s.len() as int);
    assert(counts_upto(t, 3) =~= Seq::new(27, |k: int| tiles[k] as int));
}

} // verus!
