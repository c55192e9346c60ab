//! Rotary position embedding with several position axes.
//!
//! Every pair of features of a head turns with the position on one axis. A map
//! says which: either the first `s[0]` pairs turn with axis 0, the next `s[1]`
//! with axis 1 and so on, or the axes take turns until each has used up its
//! share.
use vstd::prelude::*;

use crate::layout::{lemma_inside, lemma_join, lemma_monotone, lemma_row_below, lemma_split};

verus! {

/// Sum of the first `n` shares.
pub open spec fn shares(s: Seq<usize>, n: int) -> int
    decreases n,
{
    if n <= 0 {
        0
    } else {
        shares(s, n - 1) + s[n - 1]
    }
}

/// The first `n` axes one after the other, each as often as its share says.
pub open spec fn blocks(s: Seq<usize>, n: int) -> Seq<usize>
    decreases n,
{
    if n <= 0 {
        Seq::empty()
    } else {
        blocks(s, n - 1) + Seq::new(s[n - 1] as nat, |k: int| (n - 1) as usize)
    }
}

/// The map to consecutive axes, filled up with the last axis.
pub open spec fn contiguous(s: Seq<usize>, t: int) -> Seq<usize> {
    let all = blocks(s, s.len() as int);
    if t <= all.len() {
        all.take(t)
    } else {
        all + Seq::new((t - all.len()) as nat, |k: int| (s.len() - 1) as usize)
    }
}

/// The axes below `n` that still have a share in round `r`.
pub open spec fn round(s: Seq<usize>, r: int, n: int) -> Seq<usize>
    decreases n,
{
    if n <= 0 {
        Seq::empty()
    } else if r < s[n - 1] {
        round(s, r, n - 1).push((n - 1) as usize)
    } else {
        round(s, r, n - 1)
    }
}

/// The first `n` rounds.
pub open spec fn rounds(s: Seq<usize>, n: int) -> Seq<usize>
    decreases n,
{
    if n <= 0 {
        Seq::empty()
    } else {
        rounds(s, n - 1) + round(s, n - 1, s.len() as int)
    }
}

/// The map to alternating axes: as many rounds as it takes, cut at `t`.
pub open spec fn interleaved(s: Seq<usize>, t: int) -> Seq<usize> {
    let all = rounds(s, t);
    if t <= all.len() {
        all.take(t)
    } else {
        all
    }
}

proof fn lemma_blocks_prefix(s: Seq<usize>, n: int, m: int)
    requires
        0 <= n <= m <= s.len(),
    ensures
        blocks(s, n).len() == shares(s, n),
        blocks(s, n).len() <= blocks(s, m).len(),
        blocks(s, m).take(blocks(s, n).len() as int) == blocks(s, n),
    decreases m,
{
    if n < m {
        lemma_blocks_prefix(s, n, m - 1);
        assert(blocks(s, m).take(blocks(s, n).len() as int) =~= blocks(s, m - 1).take(
            blocks(s, n).len() as int,
        ));
    } else {
        assert(blocks(s, m).take(blocks(s, n).len() as int) =~= blocks(s, n));
        if n > 0 {
            lemma_blocks_prefix(s, n - 1, n - 1);
        }
    }
}

/// Maps `t` feature pairs to consecutive axes with the given shares. Pairs beyond
/// all shares go to the last axis.
pub fn build_contiguous_dim_map(s: &[usize], t: usize) -> (r: Vec<usize>)
    requires
        0 < s@.len() || t == 0,
    ensures
        r@ == contiguous(s@, t as int),
        r@.len() == t,
        forall|j: int| 0 <= j < t ==> #[trigger] r@[j] < s@.len(),
{
    let mut m: Vec<usize> = Vec::new();
    let mut d: usize = 0;
    while d < s.len() && m.len() < t
        invariant
            d <= s@.len(),
            m@.len() <= t,
            m@.len() < t ==> m@ == blocks(s@, d as int),
            m@.len() == t ==> t <= blocks(s@, d as int).len() && m@ == blocks(s@, d as int).take(
                t as int,
            ),
            forall|j: int| 0 <= j < m@.len() ==> #[trigger] m@[j] < s@.len(),
        decreases s@.len() - d,
    {
        let sz: usize = s[d];
        let room: usize = t - m.len();
        let n: usize = if sz < room {
            sz
        } else {
            room
        };
        let ghost before = m@;
        let mut k: usize = 0;
        assert(before + Seq::new(0, |i: int| d) =~= before);
        while k < n
            invariant
                k <= n,
                d < s@.len(),
                m@ == before + Seq::new(k as nat, |i: int| d),
                forall|j: int| 0 <= j < m@.len() ==> #[trigger] m@[j] < s@.len(),
            decreases n - k,
        {
            m.push(d);
            k += 1;
            assert(m@ =~= before + Seq::new(k as nat, |i: int| d));
        }
        d += 1;
        proof {
            assert(m@ =~= blocks(s@, d as int).take(m@.len() as int));
            if m@.len() < t {
                assert(m@ =~= blocks(s@, d as int));
            }
        }
    }
    proof {
        lemma_blocks_prefix(s@, d as int, s@.len() as int);
        let all = blocks(s@, s@.len() as int);
        if m@.len() == t {
            assert(all.take(t as int) =~= blocks(s@, d as int).take(t as int)) by {
                assert(all.take(blocks(s@, d as int).len() as int).take(t as int) =~= all.take(
                    t as int,
                ));
            }
        }
    }
    let ghost filled = m@;
    proof {
        assert(filled + Seq::new(0, |i: int| (s@.len() - 1) as usize) =~= filled);
    }
    while m.len() < t
        invariant
            0 < s@.len() || t == 0,
            filled.len() <= m@.len() <= t,
            m@ == filled + Seq::new(
                (m@.len() - filled.len()) as nat,
                |i: int| (s@.len() - 1) as usize,
            ),
            forall|j: int| 0 <= j < m@.len() ==> #[trigger] m@[j] < s@.len(),
        decreases t - m@.len(),
    {
        let ghost n = m@.len() - filled.len();
        m.push(s.len() - 1);
        assert(m@ =~= filled + Seq::new((n + 1) as nat, |i: int| (s@.len() - 1) as usize));
    }
    proof {
        if filled.len() < t {
            assert(filled == blocks(s@, s@.len() as int));
        }
        assert(m@ =~= contiguous(s@, t as int));
    }
    m
}

/// Once a round is empty, so are all later ones.
proof fn lemma_rounds_end(s: Seq<usize>, r: int, n: int)
    requires
        0 <= r <= n,
        round(s, r, s.len() as int).len() == 0,
    ensures
        rounds(s, n) == rounds(s, r),
    decreases n,
{
    if r < n {
        lemma_rounds_end(s, r, n - 1);
        lemma_round_shrinks(s, r, n - 1, s.len() as int);
        assert(rounds(s, n) =~= rounds(s, n - 1));
    }
}

proof fn lemma_round_shrinks(s: Seq<usize>, r: int, q: int, n: int)
    requires
        r <= q,
        0 <= n <= s.len(),
    ensures
        round(s, q, n).len() <= round(s, r, n).len(),
    decreases n,
{
    if n > 0 {
        lemma_round_shrinks(s, r, q, n - 1);
    }
}

proof fn lemma_rounds_prefix(s: Seq<usize>, n: int, m: int)
    requires
        0 <= n <= m,
    ensures
        rounds(s, n).len() <= rounds(s, m).len(),
        rounds(s, m).take(rounds(s, n).len() as int) == rounds(s, n),
    decreases m,
{
    if n < m {
        lemma_rounds_prefix(s, n, m - 1);
        assert(rounds(s, m).take(rounds(s, n).len() as int) =~= rounds(s, m - 1).take(
            rounds(s, n).len() as int,
        ));
    } else {
        assert(rounds(s, m).take(rounds(s, n).len() as int) =~= rounds(s, n));
    }
}

proof fn lemma_round_prefix(s: Seq<usize>, r: int, n: int, m: int)
    requires
        0 <= n <= m <= s.len(),
    ensures
        round(s, r, n).len() <= round(s, r, m).len(),
        round(s, r, m).take(round(s, r, n).len() as int) == round(s, r, n),
    decreases m,
{
    if n < m {
        lemma_round_prefix(s, r, n, m - 1);
        assert(round(s, r, m).take(round(s, r, n).len() as int) =~= round(s, r, m - 1).take(
            round(s, r, n).len() as int,
        ));
    } else {
        assert(round(s, r, m).take(round(s, r, n).len() as int) =~= round(s, r, n));
    }
}

/// Maps up to `t` feature pairs to axes that take turns until their shares are
/// used up. The map is shorter than `t` where the shares are.
pub fn build_interleaved_dim_map(s: &[usize], t: usize) -> (r: Vec<usize>)
    ensures
        r@ == interleaved(s@, t as int),
        r@.len() <= t,
        forall|j: int| 0 <= j < r@.len() ==> #[trigger] r@[j] < s@.len(),
{
    let nd: usize = s.len();
    let mut m: Vec<usize> = Vec::new();
    let mut c: Vec<usize> = Vec::new();
    while c.len() < nd
        invariant
            c@.len() <= nd,
            forall|i: int| 0 <= i < c@.len() ==> #[trigger] c@[i] == 0,
        decreases nd - c@.len(),
    {
        c.push(0);
    }
    let ghost mut r: int = 0;
    assert(t == 0 ==> m@ =~= interleaved(s@, 0));
    while m.len() < t
        invariant_except_break
            nd == s@.len(),
            c@.len() == nd,
            0 <= r <= m@.len() <= t,
            m@.len() < t ==> m@ == rounds(s@, r),
            m@.len() == t ==> m@ == interleaved(s@, t as int),
            m@.len() < t ==> forall|i: int|
                0 <= i < nd ==> #[trigger] c@[i] == if r < s@[i] {
                    r
                } else {
                    s@[i] as int
                },
            forall|j: int| 0 <= j < m@.len() ==> #[trigger] m@[j] < s@.len(),
        ensures
            m@ == interleaved(s@, t as int),
            m@.len() <= t,
            forall|j: int| 0 <= j < m@.len() ==> #[trigger] m@[j] < s@.len(),
        decreases t - m@.len(),
    {
        let pv: usize = m.len();
        let ghost before = m@;
        let mut d: usize = 0;
        assert(before + round(s@, r, 0) =~= before);
        while d < nd && m.len() < t
            invariant
                nd == s@.len(),
                c@.len() == nd,
                d <= nd,
                m@.len() <= t,
                before.len() == pv < t,
                r <= pv,
                m@ == before + round(s@, r, d as int),
                forall|i: int|
                    d <= i < nd ==> #[trigger] c@[i] == if r < s@[i] {
                        r
                    } else {
                        s@[i] as int
                    },
                forall|i: int|
                    0 <= i < d ==> #[trigger] c@[i] == if r + 1 < s@[i] {
                        r + 1
                    } else {
                        s@[i] as int
                    },
                forall|j: int| 0 <= j < m@.len() ==> #[trigger] m@[j] < s@.len(),
            decreases nd - d,
        {
            if c[d] < s[d] {
                m.push(d);
                let used: usize = c[d] + 1;
                c.set(d, used);
                assert(m@ =~= before + round(s@, r, d + 1));
            }
            d += 1;
        }
        proof {
            lemma_round_prefix(s@, r, d as int, nd as int);
            let grown = before + round(s@, r, nd as int);
            assert(rounds(s@, r + 1) == grown);
            assert(m@ =~= grown.take(m@.len() as int));
        }
        if m.len() == pv {
            proof {
                assert(d == nd);
                lemma_rounds_end(s@, r, t as int);
                assert(m@ =~= before);
            }
            break;
        }
        proof {
            r = r + 1;
            if m@.len() < t {
                assert(m@ =~= rounds(s@, r));
            } else {
                lemma_rounds_prefix(s@, r, t as int);
                assert(m@ =~= rounds(s@, t as int).take(rounds(s@, r).len() as int).take(t as int));
                assert(m@ =~= interleaved(s@, t as int));
            }
        }
    }
    m
}

/// How often an axis occurs in a map.
pub open spec fn occurrences(m: Seq<usize>, d: int) -> int
    decreases m.len(),
{
    if m.len() == 0 {
        0
    } else {
        occurrences(m.drop_last(), d) + if m.last() == d {
            1int
        } else {
            0
        }
    }
}

proof fn lemma_occurrences_join(a: Seq<usize>, b: Seq<usize>, d: int)
    ensures
        occurrences(a + b, d) == occurrences(a, d) + occurrences(b, d),
    decreases b.len(),
{
    if b.len() == 0 {
        assert(a + b =~= a);
    } else {
        assert((a + b).drop_last() =~= a + b.drop_last());
        lemma_occurrences_join(a, b.drop_last(), d);
    }
}

proof fn lemma_occurrences_const(n: nat, x: usize, d: int)
    ensures
        occurrences(Seq::new(n, |k: int| x), d) == if x == d {
            n as int
        } else {
            0
        },
    decreases n,
{
    let q = Seq::new(n, |k: int| x);
    if n > 0 {
        assert(q.drop_last() =~= Seq::new((n - 1) as nat, |k: int| x));
        lemma_occurrences_const((n - 1) as nat, x, d);
    }
}

proof fn lemma_blocks_occurrences(s: Seq<usize>, n: int, d: int)
    requires
        0 <= n <= s.len() <= usize::MAX,
    ensures
        occurrences(blocks(s, n), d) == if 0 <= d < n {
            s[d] as int
        } else {
            0
        },
    decreases n,
{
    if n > 0 {
        lemma_blocks_occurrences(s, n - 1, d);
        lemma_occurrences_join(
            blocks(s, n - 1),
            Seq::new(s[n - 1] as nat, |k: int| (n - 1) as usize),
            d,
        );
        lemma_occurrences_const(s[n - 1] as nat, (n - 1) as usize, d);
    }
}

/// What is left of a share after `n` rounds have taken from it.
spec fn used(share: usize, n: int) -> int {
    if n < share {
        n
    } else {
        share as int
    }
}

spec fn used_sum(s: Seq<usize>, n: int, k: int) -> int
    decreases k,
{
    if k <= 0 {
        0
    } else {
        used_sum(s, n, k - 1) + used(s[k - 1], n)
    }
}

proof fn lemma_round_occurrences(s: Seq<usize>, r: int, n: int, d: int)
    requires
        0 <= n <= s.len() <= usize::MAX,
        0 <= r,
    ensures
        occurrences(round(s, r, n), d) == if 0 <= d < n && r < s[d] {
            1int
        } else {
            0
        },
        round(s, r, n).len() == used_sum(s, r + 1, n) - used_sum(s, r, n),
    decreases n,
{
    if n > 0 {
        lemma_round_occurrences(s, r, n - 1, d);
        if r < s[n - 1] {
            assert(round(s, r, n).drop_last() =~= round(s, r, n - 1));
        }
    }
}

proof fn lemma_rounds_occurrences(s: Seq<usize>, n: int, d: int)
    requires
        0 <= n,
        0 <= d < s.len() <= usize::MAX,
    ensures
        occurrences(rounds(s, n), d) == used(s[d], n),
        rounds(s, n).len() == used_sum(s, n, s.len() as int),
    decreases n,
{
    if n > 0 {
        lemma_rounds_occurrences(s, n - 1, d);
        lemma_occurrences_join(rounds(s, n - 1), round(s, n - 1, s.len() as int), d);
        lemma_round_occurrences(s, n - 1, s.len() as int, d);
    } else {
        lemma_nothing_used(s, s.len() as int);
    }
}

proof fn lemma_nothing_used(s: Seq<usize>, k: int)
    ensures
        used_sum(s, 0, k) == 0,
    decreases k,
{
    if k > 0 {
        lemma_nothing_used(s, k - 1);
    }
}

proof fn lemma_all_used(s: Seq<usize>, n: int, k: int)
    requires
        0 <= k <= s.len(),
        shares(s, k) <= n,
    ensures
        used_sum(s, n, k) == shares(s, k),
        0 <= shares(s, k),
        forall|d: int| 0 <= d < k ==> #[trigger] s[d] <= n,
    decreases k,
{
    if k > 0 {
        lemma_shares_nonneg(s, k - 1);
        lemma_all_used(s, n, k - 1);
    }
}

proof fn lemma_shares_nonneg(s: Seq<usize>, k: int)
    ensures
        0 <= shares(s, k),
    decreases k,
{
    if k > 0 {
        lemma_shares_nonneg(s, k - 1);
    }
}

/// Where the shares add up to the number of feature pairs, both maps have a place
/// for every pair and give every axis exactly its share.
pub proof fn law_maps_give_every_share(s: Seq<usize>, t: int, d: int)
    requires
        0 <= d < s.len() <= usize::MAX,
        shares(s, s.len() as int) == t,
    ensures
        contiguous(s, t).len() == t,
        interleaved(s, t).len() == t,
        occurrences(contiguous(s, t), d) == s[d],
        occurrences(interleaved(s, t), d) == s[d],
{
    let n = s.len() as int;
    lemma_blocks_prefix(s, n, n);
    lemma_blocks_occurrences(s, n, d);
    assert(blocks(s, n).take(t) =~= blocks(s, n));
    lemma_all_used(s, t, n);
    lemma_rounds_occurrences(s, t, d);
    assert(rounds(s, t).take(t) =~= rounds(s, t));
}

proof fn lemma_used_reaches(s: Seq<usize>, n: int, k: int)
    requires
        0 <= n,
        0 <= k <= s.len(),
    ensures
        used_sum(s, n, k) <= shares(s, k),
        used_sum(s, n, k) >= n || used_sum(s, n, k) == shares(s, k),
        0 <= used_sum(s, n, k),
    decreases k,
{
    if k > 0 {
        lemma_used_reaches(s, n, k - 1);
    }
}

proof fn lemma_occurrences_nonneg(m: Seq<usize>, d: int)
    ensures
        0 <= occurrences(m, d),
    decreases m.len(),
{
    if m.len() > 0 {
        lemma_occurrences_nonneg(m.drop_last(), d);
    }
}

proof fn lemma_rounds_len(s: Seq<usize>, n: int)
    requires
        0 <= n,
        s.len() <= usize::MAX,
    ensures
        rounds(s, n).len() == used_sum(s, n, s.len() as int),
    decreases n,
{
    if n > 0 {
        lemma_rounds_len(s, n - 1);
        lemma_round_occurrences(s, n - 1, s.len() as int, 0);
    } else {
        lemma_nothing_used(s, s.len() as int);
    }
}

/// The map to alternating axes is as long as asked for, or as all shares together
/// where that is less.
pub proof fn law_interleaved_length(s: Seq<usize>, t: int)
    requires
        0 <= t,
        s.len() <= usize::MAX,
    ensures
        interleaved(s, t).len() == if t <= shares(s, s.len() as int) {
            t
        } else {
            shares(s, s.len() as int)
        },
{
    lemma_rounds_len(s, t);
    lemma_used_reaches(s, t, s.len() as int);
    lemma_shares_nonneg(s, s.len() as int);
    if shares(s, s.len() as int) <= t {
        lemma_all_used(s, t, s.len() as int);
    }
}

/// The map to alternating axes gives no axis more than its share.
pub proof fn law_interleaved_shares(s: Seq<usize>, t: int, d: int)
    requires
        0 <= t,
        0 <= d < s.len() <= usize::MAX,
    ensures
        0 <= occurrences(interleaved(s, t), d) <= s[d],
{
    let all = rounds(s, t);
    let m = interleaved(s, t);
    lemma_rounds_occurrences(s, t, d);
    assert(m =~= all.take(m.len() as int));
    assert(all =~= m + all.skip(m.len() as int));
    lemma_occurrences_join(m, all.skip(m.len() as int), d);
    lemma_occurrences_nonneg(m, d);
    lemma_occurrences_nonneg(all.skip(m.len() as int), d);
}

/// The map to alternating axes for fewer feature pairs is the beginning of that for
/// more.
pub proof fn law_interleaved_prefix(s: Seq<usize>, t: int, u: int)
    requires
        0 <= t <= u,
        s.len() <= usize::MAX,
    ensures
        interleaved(s, t).len() <= interleaved(s, u).len(),
        interleaved(s, u).take(interleaved(s, t).len() as int) == interleaved(s, t),
{
    law_interleaved_length(s, t);
    law_interleaved_length(s, u);
    lemma_rounds_prefix(s, t, u);
    let n = interleaved(s, t).len() as int;
    assert(interleaved(s, t) =~= rounds(s, t).take(n));
    assert(interleaved(s, u) =~= rounds(s, u).take(interleaved(s, u).len() as int));
    assert(rounds(s, t).take(n) =~= rounds(s, u).take(rounds(s, t).len() as int).take(n));
    assert(interleaved(s, u).take(n) =~= rounds(s, u).take(n));
    assert(rounds(s, u).take(rounds(s, t).len() as int).take(n) =~= rounds(s, u).take(n));
}

/// The positions that feature pairs turn with: pair `j` of token `t` takes token
/// `t`'s position on axis `dims[j]`.
pub fn rotary_positions(pos: &Vec<Vec<i64>>, dims: &[usize], hh: usize, sl: usize) -> (r: Vec<i64>)
    requires
        hh <= dims@.len(),
        sl * hh <= usize::MAX,
        forall|j: int|
            0 <= j < hh ==> (#[trigger] dims@[j]) < pos@.len() && sl <= pos@[dims@[j] as int]@.len(),
    ensures
        r@.len() == sl * hh,
        forall|t: int, j: int|
            0 <= t < sl && 0 <= j < hh ==> r@[#[trigger] (t * hh + j)]
                == pos@[dims@[j] as int]@[t],
{
    let total: usize = sl * hh;
    let mut out: Vec<i64> = Vec::new();
    let mut k: usize = 0;
    while k < total
        invariant
            k <= total,
            total == sl * hh,
            hh <= dims@.len(),
            forall|j: int|
                0 <= j < hh ==> (#[trigger] dims@[j]) < pos@.len() && sl
                    <= pos@[dims@[j] as int]@.len(),
            out@.len() == k,
            forall|i: int|
                0 <= i < k ==> #[trigger] out@[i] == pos@[dims@[i % (hh as int)] as int]@[i / (
                hh as int)],
        decreases total - k,
    {
        assert(0 < hh) by (nonlinear_arith)
            requires
                0 <= k < sl * hh,
                0 <= hh,
        ;
        let t: usize = k / hh;
        let j: usize = k % hh;
        proof {
            lemma_row_below(k as int, sl as int, hh as int);
        }
        let axis: usize = dims[j];
        out.push(pos[axis][t]);
        k += 1;
    }
    proof {
        assert forall|t: int, j: int| 0 <= t < sl && 0 <= j < hh implies out@[#[trigger] (t * hh
            + j)] == pos@[dims@[j] as int]@[t] by {
            lemma_split(t, hh as int, j);
            lemma_inside(t, sl as int, hh as int, j);
        }
    }
    out
}

/// Cell of a table whose rows have two halves: `first`, then `second`, and nothing
/// in a column beyond them.
pub open spec fn table_cell<T>(first: Seq<T>, second: Seq<T>, hh: int, zero: T, t: int, c: int) -> T {
    if c < hh {
        first[t * hh + c]
    } else if c < 2 * hh {
        second[t * hh + c - hh]
    } else {
        zero
    }
}

/// Lays two tables of `[rows, width / 2]` out side by side as `[rows, width]`.
/// A rotary table has the same values in both halves; a sinusoidal one has sines
/// in front of cosines.
pub fn join_halves<T: Copy>(first: &[T], second: &[T], rows: usize, width: usize, zero: T) -> (r: Vec<
    T,
>)
    requires
        first@.len() == rows * (width / 2),
        second@.len() == rows * (width / 2),
        rows * width <= usize::MAX,
    ensures
        r@.len() == rows * width,
        forall|t: int, c: int|
            0 <= t < rows && 0 <= c < width ==> r@[#[trigger] (t * width + c)] == table_cell(
                first@,
                second@,
                (width / 2) as int,
                zero,
                t,
                c,
            ),
{
    let hh: usize = width / 2;
    let total: usize = rows * width;
    let mut out: Vec<T> = Vec::new();
    let mut k: usize = 0;
    assert(first.len() <= usize::MAX);
    while k < total
        invariant
            k <= total,
            total == rows * width,
            hh == width / 2,
            first@.len() == rows * hh <= usize::MAX,
            second@.len() == rows * hh,
            out@.len() == k,
            forall|i: int|
                0 <= i < k ==> #[trigger] out@[i] == table_cell(
                    first@,
                    second@,
                    hh as int,
                    zero,
                    i / (width as int),
                    i % (width as int),
                ),
        decreases total - k,
    {
        assert(0 < width) by (nonlinear_arith)
            requires
                0 <= k < rows * width,
                0 <= width,
        ;
        let t: usize = k / width;
        let c: usize = k % width;
        proof {
            lemma_row_below(k as int, rows as int, width as int);
            lemma_monotone(t as int, hh as int, rows as int, hh as int);
        }
        if c < hh {
            proof {
                lemma_inside(t as int, rows as int, hh as int, c as int);
            }
            out.push(first[t * hh + c]);
        } else if c < 2 * hh {
            proof {
                lemma_inside(t as int, rows as int, hh as int, c - hh);
            }
            out.push(second[t * hh + (c - hh)]);
        } else {
            out.push(zero);
        }
        k += 1;
    }
    proof {
        assert forall|t: int, c: int| 0 <= t < rows && 0 <= c < width implies out@[#[trigger] (t
            * width + c)] == table_cell(first@, second@, hh as int, zero, t, c) by {
            lemma_split(t, width as int, c);
            lemma_inside(t, rows as int, width as int, c);
        }
    }
    out
}

/// Which axis every feature pair turns with.
pub open spec fn axis_map(ms: Seq<usize>, hh: int, il: bool) -> Seq<usize> {
    if il {
        interleaved(ms, hh)
    } else {
        contiguous(ms, hh)
    }
}

/// Whether there is a position for every token on every axis that a feature pair
/// turns with.
pub open spec fn axes_cover(pos: Seq<Vec<i64>>, ms: Seq<usize>, hh: int, il: bool) -> bool {
    &&& hh <= axis_map(ms, hh, il).len()
    &&& forall|j: int|
        0 <= j < hh ==> (#[trigger] axis_map(ms, hh, il)[j]) < pos.len() && pos[0]@.len()
            <= pos[axis_map(ms, hh, il)[j] as int]@.len()
}

/// Whether two tables of `[seq_len, hd]` are the rotary tables for the positions:
/// feature pair `j` of token `t` is what `turn` gives for the token's position on the
/// pair's axis, both halves of a row are the same, and a column beyond them is empty.
pub open spec fn is_mrope_table<T, F: Fn(i64, usize) -> (T, T)>(
    pos: Seq<Vec<i64>>,
    hd: int,
    ms: Seq<usize>,
    il: bool,
    zero: T,
    turn: F,
    cos: Seq<T>,
    sin: Seq<T>,
) -> bool {
    let hh = hd / 2;
    let sl = pos[0]@.len();
    &&& cos.len() == sl * hd
    &&& sin.len() == sl * hd
    &&& forall|t: int, j: int|
        0 <= t < sl && 0 <= j < hh ==> {
            &&& call_ensures(
                turn,
                (pos[axis_map(ms, hh, il)[j] as int]@[t], j as usize),
                (cos[#[trigger] (t * hd + j)], sin[t * hd + j]),
            )
            &&& cos[t * hd + (j + hh)] == cos[t * hd + j]
            &&& sin[t * hd + (j + hh)] == sin[t * hd + j]
        }
    &&& forall|t: int, c: int|
        0 <= t < sl && 2 * hh <= c < hd ==> cos[#[trigger] (t * hd + c)] == zero && sin[t * hd + c]
            == zero
}

/// Cosine and sine tables `[seq_len, hd]` for positions on several axes, with the
/// shares `ms` of the axes. `turn` gives cosine and sine of a feature pair at a
/// position.
pub fn compute_mrope_cos_sin<T: Copy, F: Fn(i64, usize) -> (T, T)>(
    pos: &Vec<Vec<i64>>,
    hd: usize,
    ms: &[usize],
    il: bool,
    zero: T,
    turn: F,
) -> (r: (Vec<T>, Vec<T>))
    requires
        0 < pos@.len(),
        il || 0 < ms@.len() || hd < 2,
        0 < pos@[0]@.len() ==> axes_cover(pos@, ms@, (hd / 2) as int, il),
        pos@[0]@.len() * hd <= usize::MAX,
        forall|p: i64, j: usize| 2 * j < hd ==> #[trigger] call_requires(turn, (p, j)),
    ensures
        is_mrope_table(pos@, hd as int, ms@, il, zero, turn, r.0@, r.1@),
{
    let hh: usize = hd / 2;
    let sl: usize = pos[0].len();
    if sl == 0 {
        assert(0 * hd == 0);
        return (Vec::new(), Vec::new());
    }
    let dims = if il {
        build_interleaved_dim_map(ms, hh)
    } else {
        build_contiguous_dim_map(ms, hh)
    };
    proof {
        assert(dims@ == axis_map(ms@, hh as int, il));
        lemma_monotone(sl as int, hh as int, sl as int, hd as int);
    }
    let at = rotary_positions(pos, dims.as_slice(), hh, sl);
    let mut cos: Vec<T> = Vec::new();
    let mut sin: Vec<T> = Vec::new();
    let mut k: usize = 0;
    while k < at.len()
        invariant
            k <= at@.len(),
            at@.len() == sl * hh,
            hh == hd / 2,
            cos@.len() == k,
            sin@.len() == k,
            forall|p: i64, j: usize| 2 * j < hd ==> #[trigger] call_requires(turn, (p, j)),
            forall|i: int|
                0 <= i < k ==> call_ensures(
                    turn,
                    (at@[i], (i % (hh as int)) as usize),
                    (#[trigger] cos@[i], sin@[i]),
                ),
        decreases at@.len() - k,
    {
        assert(0 < hh) by (nonlinear_arith)
            requires
                0 <= k < sl * hh,
                0 <= hh,
        ;
        let j: usize = k % hh;
        let (c, s) = turn(at[k], j);
        cos.push(c);
        sin.push(s);
        k += 1;
    }
    let cos_table = join_halves(cos.as_slice(), cos.as_slice(), sl, hd, zero);
    let sin_table = join_halves(sin.as_slice(), sin.as_slice(), sl, hd, zero);
    proof {
        assert forall|t: int, j: int| 0 <= t < sl && 0 <= j < hh implies {
            &&& call_ensures(
                turn,
                (pos@[axis_map(ms@, hh as int, il)[j] as int]@[t], j as usize),
                (cos_table@[#[trigger] (t * hd + j)], sin_table@[t * hd + j]),
            )
            &&& cos_table@[t * hd + (j + hh)] == cos_table@[t * hd + j]
            &&& sin_table@[t * hd + (j + hh)] == sin_table@[t * hd + j]
        } by {
            lemma_split(t, hh as int, j);
            lemma_inside(t, sl as int, hh as int, j);
            let i = t * hh + j;
            assert(at@[t * hh + j] == pos@[dims@[j] as int]@[t]);
            assert(call_ensures(turn, (at@[i], (i % (hh as int)) as usize), (cos@[i], sin@[i])));
            assert(cos_table@[t * hd + j] == table_cell(cos@, cos@, hh as int, zero, t, j));
            assert(sin_table@[t * hd + j] == table_cell(sin@, sin@, hh as int, zero, t, j));
            let c = j + hh;
            assert(cos_table@[t * hd + c] == table_cell(cos@, cos@, hh as int, zero, t, c));
            assert(sin_table@[t * hd + c] == table_cell(sin@, sin@, hh as int, zero, t, c));
        }
    }
    (cos_table, sin_table)
}

proof fn lemma_blocks_axes(s: Seq<usize>, n: int)
    requires
        0 <= n <= s.len() <= usize::MAX,
    ensures
        forall|j: int| 0 <= j < blocks(s, n).len() ==> (#[trigger] blocks(s, n)[j]) < n,
    decreases n,
{
    if n > 0 {
        lemma_blocks_axes(s, n - 1);
        let before = blocks(s, n - 1);
        assert forall|j: int| 0 <= j < blocks(s, n).len() implies (#[trigger] blocks(s, n)[j]) < n by {
            if j < before.len() {
                assert(blocks(s, n)[j] == before[j]);
            }
        }
    }
}

proof fn lemma_round_axes(s: Seq<usize>, r: int, n: int)
    requires
        0 <= n <= s.len() <= usize::MAX,
    ensures
        forall|j: int| 0 <= j < round(s, r, n).len() ==> (#[trigger] round(s, r, n)[j]) < n,
    decreases n,
{
    if n > 0 {
        lemma_round_axes(s, r, n - 1);
        let before = round(s, r, n - 1);
        assert forall|j: int| 0 <= j < round(s, r, n).len() implies (#[trigger] round(s, r, n)[j])
            < n by {
            if j < before.len() {
                assert(round(s, r, n)[j] == before[j]);
            }
        }
    }
}

proof fn lemma_rounds_axes(s: Seq<usize>, n: int)
    requires
        s.len() <= usize::MAX,
    ensures
        forall|j: int| 0 <= j < rounds(s, n).len() ==> (#[trigger] rounds(s, n)[j]) < s.len(),
    decreases n,
{
    if n > 0 {
        lemma_rounds_axes(s, n - 1);
        lemma_round_axes(s, n - 1, s.len() as int);
        let before = rounds(s, n - 1);
        let last = round(s, n - 1, s.len() as int);
        assert forall|j: int| 0 <= j < rounds(s, n).len() implies (#[trigger] rounds(s, n)[j])
            < s.len() by {
            if j < before.len() {
                assert(rounds(s, n)[j] == before[j]);
            } else {
                assert(rounds(s, n)[j] == last[j - before.len()]);
            }
        }
    }
}

/// Every feature pair turns with an axis that has positions, where there are no more
/// shares than axes and, for axes that take turns, the shares reach for all pairs.
pub proof fn law_axes_cover(pos: Seq<Vec<i64>>, ms: Seq<usize>, hh: int, il: bool)
    requires
        0 <= hh,
        1 <= ms.len() <= pos.len(),
        ms.len() <= usize::MAX,
        il ==> hh <= shares(ms, ms.len() as int),
        forall|a: int| 0 <= a < pos.len() ==> pos[0]@.len() <= (#[trigger] pos[a])@.len(),
    ensures
        axes_cover(pos, ms, hh, il),
{
    let m = axis_map(ms, hh, il);
    if il {
        law_interleaved_length(ms, hh);
        lemma_rounds_axes(ms, hh);
        assert(m =~= rounds(ms, hh).take(m.len() as int));
    } else {
        lemma_blocks_axes(ms, ms.len() as int);
    }
    assert forall|j: int| 0 <= j < hh implies (#[trigger] m[j]) < ms.len() by {
        if il {
            assert(m[j] == rounds(ms, hh)[j]);
        } else {
            let all = blocks(ms, ms.len() as int);
            if j < all.len() {
                assert(m[j] == all[j]);
            }
        }
    }
}

/// Where all axes have the same positions, as in a text, the rotary tables are the
/// same whatever the shares of the axes and the order in which they take turns.
pub proof fn law_equal_axes_give_one_table<T, F: Fn(i64, usize) -> (T, T)>(
    pos: Seq<Vec<i64>>,
    hd: int,
    ms: Seq<usize>,
    il: bool,
    other_ms: Seq<usize>,
    other_il: bool,
    zero: T,
    turn: F,
    cos: Seq<T>,
    sin: Seq<T>,
    other_cos: Seq<T>,
    other_sin: Seq<T>,
)
    requires
        0 <= hd,
        0 < pos.len(),
        axes_cover(pos, ms, hd / 2, il),
        axes_cover(pos, other_ms, hd / 2, other_il),
        forall|a: int| 0 <= a < pos.len() ==> (#[trigger] pos[a])@ == pos[0]@,
        forall|p: i64, j: usize, x: (T, T), y: (T, T)|
            #[trigger] call_ensures(turn, (p, j), x) && #[trigger] call_ensures(turn, (p, j), y)
                ==> x == y,
        is_mrope_table(pos, hd, ms, il, zero, turn, cos, sin),
        is_mrope_table(pos, hd, other_ms, other_il, zero, turn, other_cos, other_sin),
    ensures
        cos == other_cos,
        sin == other_sin,
{
    let hh = hd / 2;
    let sl = pos[0]@.len();
    assert forall|i: int| 0 <= i < sl * hd implies cos[i] == other_cos[i] && sin[i] == other_sin[i] by {
        assert(0 < hd) by (nonlinear_arith)
            requires
                0 <= i < sl * hd,
                0 <= hd,
        ;
        let t = i / hd;
        let c = i % hd;
        lemma_row_below(i, sl as int, hd);
        lemma_join(i, hd);
        assert(i == t * hd + c);
        if c < 2 * hh {
            let j = if c < hh {
                c
            } else {
                c - hh
            };
            let a = axis_map(ms, hh, il)[j] as int;
            let b = axis_map(other_ms, hh, other_il)[j] as int;
            assert(pos[a]@ == pos[0]@ && pos[b]@ == pos[0]@);
            assert(call_ensures(
                turn,
                (pos[a]@[t], j as usize),
                (cos[t * hd + j], sin[t * hd + j]),
            ));
            assert(call_ensures(
                turn,
                (pos[b]@[t], j as usize),
                (other_cos[t * hd + j], other_sin[t * hd + j]),
            ));
            if c >= hh {
                assert(t * hd + (j + hh) == i);
            }
        }
    }
    assert(cos =~= other_cos);
    assert(sin =~= other_sin);
}

proof fn lemma_block_axis(s: Seq<usize>, n: int, i: int, d: int)
    requires
        0 <= d < n <= s.len() <= usize::MAX,
        shares(s, d) <= i < shares(s, d + 1),
        0 <= i,
    ensures
        i < blocks(s, n).len(),
        blocks(s, n)[i] == d,
{
    lemma_blocks_prefix(s, d, d + 1);
    lemma_blocks_prefix(s, d + 1, n);
    assert(blocks(s, d + 1)[i] == d);
    assert(blocks(s, n)[i] == blocks(s, n).take(blocks(s, d + 1).len() as int)[i]);
}

/// In the map to consecutive axes an axis has the feature pairs behind those of the axes
/// before it, as many as its share; the last axis has all that are left.
pub proof fn law_contiguous_axes(s: Seq<usize>, t: int, i: int, d: int)
    requires
        0 <= i < t,
        0 <= d < s.len() <= usize::MAX,
        shares(s, d) <= i,
        i < shares(s, d + 1) || d == s.len() - 1,
    ensures
        contiguous(s, t).len() == t,
        contiguous(s, t)[i] == d,
{
    let n = s.len() as int;
    lemma_blocks_prefix(s, n, n);
    if i < shares(s, d + 1) {
        lemma_block_axis(s, n, i, d);
    }
}

proof fn lemma_round_ascends(s: Seq<usize>, r: int, n: int)
    requires
        0 <= n <= s.len() <= usize::MAX,
    ensures
        forall|i: int| 0 <= i < round(s, r, n).len() ==> (#[trigger] round(s, r, n)[i]) < n && r
            < s[round(s, r, n)[i] as int],
        forall|i: int, j: int|
            0 <= i < j < round(s, r, n).len() ==> (#[trigger] round(s, r, n)[i]) < (
            #[trigger] round(s, r, n)[j]),
    decreases n,
{
    if n > 0 {
        lemma_round_ascends(s, r, n - 1);
        let before = round(s, r, n - 1);
        let all = round(s, r, n);
        assert forall|i: int| 0 <= i < all.len() implies (#[trigger] all[i]) < n && r
            < s[all[i] as int] by {
            if i < before.len() {
                assert(all[i] == before[i]);
            }
        }
        assert forall|i: int, j: int| 0 <= i < j < all.len() implies (#[trigger] all[i]) < (
        #[trigger] all[j]) by {
            assert(all[i] == before[i]);
            if j < before.len() {
                assert(all[j] == before[j]);
            }
        }
    }
}

proof fn lemma_not_there(m: Seq<usize>, d: int)
    requires
        forall|i: int| 0 <= i < m.len() ==> #[trigger] m[i] != d,
    ensures
        occurrences(m, d) == 0,
    decreases m.len(),
{
    if m.len() > 0 {
        lemma_not_there(m.drop_last(), d);
        assert(m[m.len() - 1] != d);
    }
}

/// Turn of feature pair `i` among those of its axis.
pub open spec fn turn_of(m: Seq<usize>, i: int) -> int {
    occurrences(m.take(i), m[i] as int)
}

proof fn lemma_turns(s: Seq<usize>, n: int, i: int, j: int)
    requires
        0 <= n,
        s.len() <= usize::MAX,
        0 <= i <= j < rounds(s, n).len(),
    ensures
        ({
            let m = rounds(s, n);
            &&& m[i] < s.len()
            &&& m[j] < s.len()
            &&& 0 <= turn_of(m, i) < n
            &&& 0 <= turn_of(m, j) < n
            &&& i < j ==> turn_of(m, i) < turn_of(m, j) || turn_of(m, i) == turn_of(m, j) && m[i]
                < m[j]
        }),
    decreases n,
{
    if n > 0 {
        let m = rounds(s, n);
        let before = rounds(s, n - 1);
        let last = round(s, n - 1, s.len() as int);
        let at = before.len() as int;
        lemma_round_ascends(s, n - 1, s.len() as int);
        if i < at {
            assert(m.take(i) =~= before.take(i));
            assert(m[i] == before[i]);
            if j < at {
                assert(m.take(j) =~= before.take(j));
                lemma_turns(s, n - 1, i, j);
            } else {
                lemma_turns(s, n - 1, i, i);
                lemma_last_turn(s, n, j);
            }
        } else {
            lemma_last_turn(s, n, i);
            lemma_last_turn(s, n, j);
            assert(m[i] == last[i - at]);
            assert(m[j] == last[j - at]);
        }
    }
}

proof fn lemma_last_turn(s: Seq<usize>, n: int, i: int)
    requires
        0 < n,
        s.len() <= usize::MAX,
        rounds(s, n - 1).len() <= i < rounds(s, n).len(),
    ensures
        rounds(s, n)[i] < s.len(),
        turn_of(rounds(s, n), i) == n - 1,
{
    let m = rounds(s, n);
    let before = rounds(s, n - 1);
    let last = round(s, n - 1, s.len() as int);
    let at = before.len() as int;
    lemma_round_ascends(s, n - 1, s.len() as int);
    assert(m[i] == last[i - at]);
    let d = m[i] as int;
    assert(m.take(i) =~= before + last.take(i - at));
    lemma_occurrences_join(before, last.take(i - at), d);
    assert forall|k: int| 0 <= k < last.take(i - at).len() implies #[trigger] last.take(i - at)[k]
        != d by {
        assert(last.take(i - at)[k] == last[k]);
        assert(last[k] < last[i - at]);
    }
    lemma_not_there(last.take(i - at), d);
    lemma_rounds_occurrences(s, n - 1, d);
}

/// In the map to alternating axes the axes take turns: all first turns come before all
/// second ones, and within a turn the axes come in order.
pub proof fn law_interleaved_axes_take_turns(s: Seq<usize>, t: int, i: int, j: int)
    requires
        s.len() <= usize::MAX,
        0 <= t,
        0 <= i < j < interleaved(s, t).len(),
    ensures
        ({
            let m = interleaved(s, t);
            ||| turn_of(m, i) < turn_of(m, j)
            ||| turn_of(m, i) == turn_of(m, j) && m[i] < m[j]
        }),
{
    let m = interleaved(s, t);
    let all = rounds(s, t);
    lemma_turns(s, t, i, j);
    assert(m.take(i) =~= all.take(i));
    assert(m.take(j) =~= all.take(j));
}

/// A row of the rotary tables: column `c` turns by the position of its token on the axis of
/// feature pair `c % (hd / 2)`, and by the frequency of that pair.
pub proof fn law_rotary_row<T, F: Fn(i64, usize) -> (T, T)>(
    pos: Seq<Vec<i64>>,
    hd: int,
    ms: Seq<usize>,
    il: bool,
    zero: T,
    turn: F,
    cos: Seq<T>,
    sin: Seq<T>,
    t: int,
    c: int,
)
    requires
        is_mrope_table(pos, hd, ms, il, zero, turn, cos, sin),
        0 <= t < pos[0]@.len(),
        0 <= c < 2 * (hd / 2),
    ensures
        ({
            let pair = c % (hd / 2);
            let axis = if il {
                interleaved(ms, hd / 2)[pair]
            } else {
                contiguous(ms, hd / 2)[pair]
            };
            call_ensures(
                turn,
                (pos[axis as int]@[t], pair as usize),
                (cos[t * hd + c], sin[t * hd + c]),
            )
        }),
{
    let hh = hd / 2;
    let j = if c < hh {
        c
    } else {
        c - hh
    };
    if c < hh {
        lemma_split(0, hh, c);
    } else {
        lemma_split(1, hh, c - hh);
    }
    assert(cos[t * hd + (j + hh)] == cos[t * hd + j]) by {
        assert(cos[t * hd + j] == cos[t * hd + j]);
    }
}

/// Two tables side by side: element `j` of a row of the first is in column `j`, that of the
/// second in column `hh + j`, and a column behind both holds `zero`.
pub proof fn law_halves_side_by_side<T>(
    first: Seq<T>,
    second: Seq<T>,
    hh: int,
    zero: T,
    t: int,
    j: int,
)
    requires
        0 <= j,
    ensures
        j < hh ==> table_cell(first, second, hh, zero, t, j) == first[t * hh + j],
        j < hh ==> table_cell(first, second, hh, zero, t, hh + j) == second[t * hh + j],
        0 <= hh ==> table_cell(first, second, hh, zero, t, hh + hh + j) == zero,
{
}

} // verus!
