//! Attention windows of the audio encoder.
//!
//! Audio tokens attend only to tokens of the same window. Windows are laid end
//! to end from the first token on; the last one may be shorter.
use vstd::arithmetic::div_mod::lemma_fundamental_div_mod_converse;
use vstd::prelude::*;

use crate::layout::{lemma_join, lemma_monotone, lemma_row_below};

verus! {

/// A run of tokens.
#[derive(Clone, Copy, PartialEq, Eq, Structural)]
pub struct Window {
    /// First token.
    pub start: usize,
    /// Number of tokens.
    pub len: usize,
}

impl Window {
    /// Whether the window has token `p`.
    pub open spec fn has(self, p: int) -> bool {
        self.start <= p < self.start + self.len
    }
}

/// The window that attention over `s` tokens is limited to, if any: one that is
/// empty or no shorter than the sequence limits nothing.
pub open spec fn limiting(ws: Option<usize>, s: usize) -> Option<usize> {
    match ws {
        Some(w) => if 0 < w < s {
            Some(w)
        } else {
            None
        },
        None => None,
    }
}

/// Picks the window for `s` tokens.
pub fn attention_window(ws: Option<usize>, s: usize) -> (r: Option<usize>)
    ensures
        r == limiting(ws, s),
{
    match ws {
        Some(w) => if w > 0 && w < s {
            Some(w)
        } else {
            None
        },
        None => None,
    }
}

/// Windows of `w` tokens that `s` tokens take.
pub open spec fn window_count(s: int, w: int) -> int {
    (s + w - 1) / w
}

/// Window `i` of `s` tokens in windows of `w`.
pub open spec fn window_at(s: int, w: int, i: int) -> Window {
    Window {
        start: (i * w) as usize,
        len: (if w < s - i * w {
            w
        } else {
            s - i * w
        }) as usize,
    }
}

/// `k` windows are needed where `k - 1` are too few and `k` are enough.
pub proof fn law_window_count(s: int, w: int, k: int)
    requires
        0 < w,
        (k - 1) * w < s <= k * w,
    ensures
        window_count(s, w) == k,
{
    assert(k * w == (k - 1) * w + w) by (nonlinear_arith);
    lemma_fundamental_div_mod_converse(s + w - 1, w, k, s + w - 1 - k * w);
}

/// Cuts `s` tokens into windows of `w`.
pub fn windows(s: usize, w: usize) -> (r: Vec<Window>)
    requires
        0 < w,
    ensures
        r@.len() == window_count(s as int, w as int),
        forall|i: int|
            0 <= i < r@.len() ==> #[trigger] r@[i] == window_at(s as int, w as int, i),
        forall|i: int|
            0 <= i < r@.len() ==> {
                &&& (#[trigger] r@[i]).start == i * w
                &&& 0 < r@[i].len <= w
                &&& r@[i].start + r@[i].len <= s
            },
{
    let mut out: Vec<Window> = Vec::new();
    let mut left: usize = s;
    assert(0 * w == 0) by (nonlinear_arith);
    while left > 0
        invariant
            0 < w,
            left <= s,
            left > 0 ==> s - left == out@.len() * w,
            left == 0 && s > 0 ==> (out@.len() - 1) * w < s <= out@.len() * w,
            s == 0 ==> out@.len() == 0,
            forall|i: int|
                0 <= i < out@.len() ==> #[trigger] out@[i] == window_at(s as int, w as int, i),
            forall|i: int|
                0 <= i < out@.len() ==> {
                    &&& (#[trigger] out@[i]).start == i * w
                    &&& 0 < out@[i].len <= w
                    &&& out@[i].start + out@[i].len <= s
                },
        decreases left,
    {
        let len: usize = if w < left {
            w
        } else {
            left
        };
        let ghost n = out@.len() as int;
        assert((n + 1) * w == n * w + w) by (nonlinear_arith);
        out.push(Window { start: s - left, len });
        left = left - len;
    }
    proof {
        if s == 0 {
            assert((0 - 1) * w == 0 - w) by (nonlinear_arith);
        }
        law_window_count(s as int, w as int, out@.len() as int);
    }
    out
}

/// Every token lies in exactly one window, the one its position divided by the
/// window length says.
pub proof fn law_windows_partition(s: int, w: int, p: int, i: int)
    requires
        0 < w,
        0 <= p < s <= usize::MAX,
        0 <= i < window_count(s, w),
    ensures
        0 <= p / w < window_count(s, w),
        window_at(s, w, i).has(p) <==> i == p / w,
{
    let n = window_count(s, w);
    lemma_join(s + w - 1, w);
    lemma_join(p, w);
    assert(n * w >= s);
    lemma_row_below(p, n, w);
    assert(i * w <= s - 1) by (nonlinear_arith)
        requires
            0 <= i <= n - 1,
            0 < w,
            n * w <= s + w - 1,
    ;
    lemma_monotone(0, 0, i, w);
    let q = p / w;
    if i < q {
        assert(i * w + w <= q * w) by (nonlinear_arith)
            requires
                i + 1 <= q,
                0 < w,
        ;
    } else if i > q {
        assert(q * w + w <= i * w) by (nonlinear_arith)
            requires
                q + 1 <= i,
                0 < w,
        ;
    }
}

/// Lengths that a matrix-vector product on the GPU backend can sum over are
/// multiples of this.
pub const K_ALIGN: usize = 32;

/// How attention is computed for `m` queries over `n` positions.
#[derive(Clone, Copy, PartialEq, Eq, Structural)]
pub enum AttentionKernel {
    /// The backend's own attention.
    Builtin,
    /// Scores and softmax over `n`, then weights and values padded by `pad` zeros.
    Padded { pad: usize },
}

/// Picks how attention is computed: only a single query over an unaligned number
/// of positions needs padding.
pub fn safe_attention(m: usize, n: usize) -> (r: AttentionKernel)
    requires
        n + K_ALIGN - 1 <= usize::MAX,
    ensures
        r is Builtin <==> m > 1 || n % K_ALIGN == 0,
        r matches AttentionKernel::Padded { pad } ==> 0 < pad < K_ALIGN && (n + pad) % (
        K_ALIGN as int) == 0,
{
    if m > 1 || n % K_ALIGN == 0 {
        return AttentionKernel::Builtin;
    }
    let n_padded: usize = ((n + K_ALIGN - 1) / K_ALIGN) * K_ALIGN;
    AttentionKernel::Padded { pad: n_padded - n }
}

/// Attention is limited to a window where one was asked for that is not empty and shorter
/// than the sequence, and then to just that one. A token sees every other one otherwise.
pub proof fn law_window_limits(ws: Option<usize>, s: usize, w: usize)
    ensures
        limiting(ws, s) == Some(w) <==> ws == Some(w) && w != 0 && w < s,
        limiting(ws, s) is None <==> ws is None || ws == Some(0usize) || s <= ws->0,
{
}

} // verus!
