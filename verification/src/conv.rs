//! Convolutions of 3x3 with stride 2 and padding 1 as matrix products.
//!
//! The patches of an input `[b, c_in, h, w]` become the rows of a matrix
//! `[b * h_out * w_out, c_in * 9]`, whose columns are ordered as the taps of a
//! filter `[c_out, c_in, 3, 3]`. The product with the filters has a row per output
//! pixel, and is put back into planes `[b, c_out, h_out, w_out]`.
use vstd::prelude::*;

use crate::chunking::conv_len;
use crate::layout::{
    at2, at3, at4, lemma_grows, lemma_inside, lemma_monotone, lemma_row_below, lemma_split,
};

verus! {

/// Pixel `(row, column)` of channel `c` of input `ib`, counted from one pixel of
/// padding round `[h, w]`.
pub open spec fn padded_pixel<T>(
    x: Seq<T>,
    c_in: int,
    h: int,
    w: int,
    zero: T,
    ib: int,
    c: int,
    row: int,
    column: int,
) -> T {
    if 1 <= row <= h && 1 <= column <= w {
        x[at4(ib, c_in, c, h, row - 1, w, column - 1)]
    } else {
        zero
    }
}

/// Row of an output pixel among the patches.
pub open spec fn patch_row(h_out: int, w_out: int, ib: int, ho: int, wo: int) -> int {
    at3(ib, h_out, ho, w_out, wo)
}

/// Column of a tap among those of a filter.
pub open spec fn tap_column(c: int, kh: int, kw: int) -> int {
    at3(c, 3, kh, 3, kw)
}

/// The matrix of patches, and the height and width of the output.
pub struct Patches<T> {
    /// `[b * h_out * w_out, c_in * 9]`.
    pub data: Vec<T>,
    pub h_out: usize,
    pub w_out: usize,
}

/// Collects the patches of `x`, `[b, c_in, h, w]`.
pub fn im2col_3x3_s2p1<T: Copy>(x: &[T], b: usize, c_in: usize, h: usize, w: usize, zero: T) -> (r:
    Patches<T>)
    requires
        0 < h,
        0 < w,
        h + 2 <= usize::MAX,
        w + 2 <= usize::MAX,
        x@.len() == b * c_in * h * w,
        c_in * 9 <= usize::MAX,
        b * conv_len(h as int) * conv_len(w as int) <= usize::MAX,
        b * conv_len(h as int) * conv_len(w as int) * (c_in * 9) <= usize::MAX,
    ensures
        r.h_out == conv_len(h as int),
        r.w_out == conv_len(w as int),
        r.data@.len() == b * r.h_out * r.w_out * (c_in * 9),
        forall|ib: int, ho: int, wo: int, c: int, kh: int, kw: int|
            0 <= ib < b && 0 <= ho < r.h_out && 0 <= wo < r.w_out && 0 <= c < c_in && 0 <= kh < 3
                && 0 <= kw < 3 ==> r.data@[#[trigger] at2(
                patch_row(r.h_out as int, r.w_out as int, ib, ho, wo),
                c_in * 9,
                tap_column(c, kh, kw),
            )] == padded_pixel(
                x@,
                c_in as int,
                h as int,
                w as int,
                zero,
                ib,
                c,
                2 * ho + kh,
                2 * wo + kw,
            ),
{
    let h_out: usize = (h - 1) / 2 + 1;
    let w_out: usize = (w - 1) / 2 + 1;
    let k: usize = c_in * 9;
    let ghost (bi, ci, hi, wi) = (b as int, c_in as int, h as int, w as int);
    let ghost (ho_n, wo_n, ki) = (h_out as int, w_out as int, k as int);
    proof {
        assert(x.len() <= usize::MAX);
        lemma_monotone(0, 0, bi, ho_n);
        lemma_monotone(0, 0, bi * ho_n, wo_n);
        lemma_grows(bi * ho_n, wo_n);
    }
    let rows: usize = b * h_out * w_out;
    let total: usize = rows * k;
    let mut data: Vec<T> = Vec::new();
    let mut n: usize = 0;
    while n < total
        invariant
            n <= total,
            total == rows * k,
            rows == bi * ho_n * wo_n,
            ki == k,
            ki == ci * 9,
            bi == b,
            ci == c_in,
            hi == h,
            wi == w,
            ho_n == h_out,
            wo_n == w_out,
            ho_n == (hi - 1) / 2 + 1,
            wo_n == (wi - 1) / 2 + 1,
            0 < hi,
            0 < wi,
            hi + 2 <= usize::MAX,
            wi + 2 <= usize::MAX,
            x@.len() == bi * ci * hi * wi,
            x@.len() <= usize::MAX,
            data@.len() == n,
            forall|m: int|
                0 <= m < n ==> #[trigger] data@[m] == padded_pixel(
                    x@,
                    ci,
                    hi,
                    wi,
                    zero,
                    m / ki / wo_n / ho_n,
                    m % ki / 3 / 3,
                    2 * (m / ki / wo_n % ho_n) + m % ki / 3 % 3,
                    2 * (m / ki % wo_n) + m % ki % 3,
                ),
        decreases total - n,
    {
        proof {
            assert(0 < ki) by (nonlinear_arith)
                requires
                    0 <= n < rows * ki,
                    0 <= ki,
            ;
            lemma_row_below(n as int, rows as int, ki);
        }
        let row: usize = n / k;
        let column: usize = n % k;
        let wo: usize = row % w_out;
        let ho: usize = row / w_out % h_out;
        let ib: usize = row / w_out / h_out;
        let kw: usize = column % 3;
        let kh: usize = column / 3 % 3;
        let c: usize = column / 3 / 3;
        proof {
            lemma_row_below(row as int, bi * ho_n, wo_n);
            lemma_row_below(row as int / wo_n, bi, ho_n);
        }
        let y: usize = 2 * ho + kh;
        let z: usize = 2 * wo + kw;
        let pixel: T = if 1 <= y && y <= h && 1 <= z && z <= w {
            proof {
                lemma_inside(ib as int, bi, ci, c as int);
                lemma_inside(ib * ci + c, bi * ci, hi, y - 1);
                lemma_inside((ib * ci + c) * hi + (y - 1), bi * ci * hi, wi, z - 1);
                lemma_grows(bi * ci * hi, wi);
                lemma_grows(bi * ci, hi);
            }
            x[((ib * c_in + c) * h + (y - 1)) * w + (z - 1)]
        } else {
            zero
        };
        data.push(pixel);
        n += 1;
    }
    proof {
        assert forall|ib: int, ho: int, wo: int, c: int, kh: int, kw: int|
            0 <= ib < bi && 0 <= ho < ho_n && 0 <= wo < wo_n && 0 <= c < ci && 0 <= kh < 3 && 0
                <= kw < 3 implies data@[#[trigger] at2(
            patch_row(ho_n, wo_n, ib, ho, wo),
            c_in * 9,
            tap_column(c, kh, kw),
        )] == padded_pixel(x@, ci, hi, wi, zero, ib, c, 2 * ho + kh, 2 * wo + kw) by {
            let row = patch_row(ho_n, wo_n, ib, ho, wo);
            let column = tap_column(c, kh, kw);
            assert(0 <= column < ki);
            lemma_split(at2(ib, ho_n, ho), wo_n, wo);
            lemma_split(ib, ho_n, ho);
            lemma_split(row, ki, column);
            lemma_inside(ib, bi, ho_n, ho);
            lemma_inside(at2(ib, ho_n, ho), bi * ho_n, wo_n, wo);
            lemma_inside(row, rows as int, ki, column);
        }
    }
    Patches { data, h_out, w_out }
}

/// Puts the rows of a product, one per output pixel, into planes
/// `[b, c_out, h_out, w_out]`.
pub fn pixels_to_planes<T: Copy>(
    rows: &[T],
    b: usize,
    c_out: usize,
    h_out: usize,
    w_out: usize,
) -> (r: Vec<T>)
    requires
        h_out * w_out <= usize::MAX,
        rows@.len() == b * h_out * w_out * c_out,
    ensures
        r@.len() == rows@.len(),
        forall|ib: int, co: int, ho: int, wo: int|
            0 <= ib < b && 0 <= co < c_out && 0 <= ho < h_out && 0 <= wo < w_out
                ==> r@[#[trigger] at4(ib, c_out as int, co, h_out as int, ho, w_out as int, wo)]
                == rows@[at2(patch_row(h_out as int, w_out as int, ib, ho, wo), c_out as int, co)],
{
    let plane: usize = h_out * w_out;
    let total: usize = rows.len();
    let ghost (bi, ci, pi) = (b as int, c_out as int, plane as int);
    proof {
        assert(bi * h_out * w_out * ci == bi * ci * pi) by (nonlinear_arith)
            requires
                pi == h_out * w_out,
        ;
    }
    let mut out: Vec<T> = Vec::new();
    let mut n: usize = 0;
    while n < total
        invariant
            n <= total,
            total == rows@.len(),
            total == bi * ci * pi,
            bi == b,
            ci == c_out,
            pi == plane,
            out@.len() == n,
            forall|m: int|
                0 <= m < n ==> #[trigger] out@[m] == rows@[at2(
                    at2(m / pi / ci, pi, m % pi),
                    ci,
                    m / pi % ci,
                )],
        decreases total - n,
    {
        proof {
            assert(0 < pi && 0 < ci) by (nonlinear_arith)
                requires
                    0 <= n < bi * ci * pi,
                    0 <= pi,
                    0 <= ci,
                    0 <= bi,
            ;
            lemma_row_below(n as int, bi * ci, pi);
            lemma_row_below(n as int / pi, bi, ci);
        }
        let at: usize = n % plane;
        let co: usize = n / plane % c_out;
        let ib: usize = n / plane / c_out;
        proof {
            lemma_inside(ib as int, bi, pi, at as int);
            lemma_inside(ib * pi + at, bi * pi, ci, co as int);
            lemma_grows(bi * pi, ci);
            assert(bi * pi * ci == bi * ci * pi) by (nonlinear_arith);
        }
        out.push(rows[(ib * plane + at) * c_out + co]);
        n += 1;
    }
    proof {
        assert forall|ib: int, co: int, ho: int, wo: int|
            0 <= ib < b && 0 <= co < c_out && 0 <= ho < h_out && 0 <= wo < w_out implies out@[
        #[trigger] at4(ib, c_out as int, co, h_out as int, ho, w_out as int, wo)]
            == rows@[at2(patch_row(h_out as int, w_out as int, ib, ho, wo), c_out as int, co)] by {
            let (hn, wn) = (h_out as int, w_out as int);
            let at = at2(ho, wn, wo);
            lemma_inside(ho, hn, wn, wo);
            let m = at2(at2(ib, ci, co), pi, at);
            assert(m == at4(ib, ci, co, hn, ho, wn, wo)) by (nonlinear_arith)
                requires
                    m == (ib * ci + co) * pi + (ho * wn + wo),
                    pi == hn * wn,
            ;
            assert(at2(ib, pi, at) == patch_row(hn, wn, ib, ho, wo)) by (nonlinear_arith)
                requires
                    pi == hn * wn,
                    at == ho * wn + wo,
            ;
            lemma_split(at2(ib, ci, co), pi, at);
            lemma_split(ib, ci, co);
            lemma_inside(ib, bi, ci, co);
            lemma_inside(at2(ib, ci, co), bi * ci, pi, at);
        }
    }
    out
}

/// Whether tap `(kh, kw)` of output pixel `(ho, wo)` lies on input pixel
/// `(row, column)` of `[h, w]`.
pub open spec fn tap_on(
    h: int,
    w: int,
    ho: int,
    wo: int,
    kh: int,
    kw: int,
    row: int,
    column: int,
) -> bool {
    &&& 0 <= ho < conv_len(h)
    &&& 0 <= wo < conv_len(w)
    &&& 0 <= kh < 3
    &&& 0 <= kw < 3
    &&& 2 * ho + kh == row + 1
    &&& 2 * wo + kw == column + 1
}

/// No pixel is left out: each lies under a tap of some output pixel.
pub proof fn law_every_pixel_is_read(h: int, w: int, row: int, column: int)
    requires
        0 <= row < h,
        0 <= column < w,
    ensures
        exists|ho: int, wo: int, kh: int, kw: int| #[trigger]
            tap_on(h, w, ho, wo, kh, kw, row, column),
{
    let (ho, wo) = (row / 2, column / 2);
    assert(tap_on(h, w, ho, wo, row + 1 - 2 * ho, column + 1 - 2 * wo, row, column));
}

/// What a tap reads: the pixel two steps of the output pixel and one of its own on, less the
/// row and column of padding, and `zero` where that is outside the image.
pub proof fn law_tap_reads_its_pixel<T>(
    x: Seq<T>,
    c_in: int,
    h: int,
    w: int,
    zero: T,
    ib: int,
    c: int,
    ho: int,
    wo: int,
    kh: int,
    kw: int,
)
    ensures
        ({
            let (row, column) = (2 * ho + kh - 1, 2 * wo + kw - 1);
            padded_pixel(x, c_in, h, w, zero, ib, c, 2 * ho + kh, 2 * wo + kw) == if 0 <= row < h
                && 0 <= column < w {
                x[((ib * c_in + c) * h + row) * w + column]
            } else {
                zero
            }
        }),
{
}

/// Patches come in order of input, row and column, and the taps of a patch in order of
/// channel, row and column.
pub proof fn law_patches_in_order(
    h_out: int,
    w_out: int,
    ib: int,
    ho: int,
    wo: int,
    c: int,
    kh: int,
    kw: int,
)
    ensures
        patch_row(h_out, w_out, ib, ho, wo) == ib * (h_out * w_out) + ho * w_out + wo,
        tap_column(c, kh, kw) == 9 * c + 3 * kh + kw,
{
    assert((ib * h_out + ho) * w_out == ib * (h_out * w_out) + ho * w_out) by (nonlinear_arith);
}

} // verus!
