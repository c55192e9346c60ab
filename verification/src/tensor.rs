//! Tensors as a flat buffer and a shape.
//!
//! The element type is left open: the CPU engine keeps single precision
//! numbers, the staging buffers of the GPU half precision ones.
use vstd::prelude::*;

use crate::buffers::append_copy;
use crate::layout::{lemma_grows, lemma_inside, lemma_monotone, lemma_row_below, lemma_split};

verus! {

/// Number of elements of a tensor with the given shape.
pub open spec fn product(shape: Seq<usize>) -> int
    decreases shape.len(),
{
    if shape.len() == 0 {
        1
    } else {
        product(shape.drop_last()) * shape.last()
    }
}

/// Shapes whose number of elements can be counted, dimension after dimension.
pub open spec fn countable(shape: Seq<usize>) -> bool
    decreases shape.len(),
{
    product(shape) <= usize::MAX && (shape.len() > 0 ==> countable(shape.drop_last()))
}

/// Number of rows: all dimensions but the last.
pub open spec fn outer(shape: Seq<usize>) -> int {
    product(shape.drop_last())
}

pub proof fn lemma_product_nonneg(shape: Seq<usize>)
    ensures
        0 <= product(shape),
    decreases shape.len(),
{
    if shape.len() > 0 {
        lemma_product_nonneg(shape.drop_last());
        lemma_monotone(0, 0, product(shape.drop_last()), shape.last() as int);
    }
}

pub proof fn lemma_countable_prefix(shape: Seq<usize>, n: int)
    requires
        countable(shape),
        0 <= n <= shape.len(),
    ensures
        countable(shape.take(n)),
    decreases shape.len(),
{
    if n == shape.len() {
        assert(shape.take(n) =~= shape);
    } else {
        lemma_countable_prefix(shape.drop_last(), n);
        assert(shape.drop_last().take(n) =~= shape.take(n));
    }
}

/// The elements of a shape of three dimensions.
pub proof fn lemma_product3(a: usize, b: usize, c: usize)
    ensures
        product(seq![a, b, c]) == a * b * c,
        product(seq![a, b]) == a * b,
        product(seq![a]) == a,
        product(Seq::<usize>::empty()) == 1,
        countable(seq![a, b]) <==> a * b <= usize::MAX,
        countable(seq![a, b, c]) <==> a * b <= usize::MAX && a * b * c <= usize::MAX,
{
    let s3 = seq![a, b, c];
    let s2 = seq![a, b];
    let s1 = seq![a];
    let s0 = Seq::<usize>::empty();
    assert(s3.drop_last() =~= s2);
    assert(s2.drop_last() =~= s1);
    assert(s1.drop_last() =~= s0);
    assert(product(s0) == 1);
    assert(product(s1) == 1 * a);
    assert(countable(s0));
    assert(countable(s1));
    assert(countable(s2) <==> a * b <= usize::MAX);
}

/// The elements of a shape of four dimensions.
pub proof fn lemma_product4(a: usize, b: usize, c: usize, d: usize)
    ensures
        product(seq![a, b, c, d]) == a * b * c * d,
        countable(seq![a, b, c, d]) <==> a * b <= usize::MAX && a * b * c <= usize::MAX && a * b * c
            * d <= usize::MAX,
        seq![a, b, c, d].drop_last() == seq![a, b, c],
{
    lemma_product3(a, b, c);
    assert(seq![a, b, c, d].drop_last() =~= seq![a, b, c]);
}

/// Counts the elements of a shape.
pub fn count(shape: &[usize]) -> (r: usize)
    requires
        countable(shape@),
    ensures
        r == product(shape@),
{
    assert(shape@.take(shape@.len() as int) =~= shape@);
    count_prefix(shape, shape.len())
}

/// Counts the elements of the first `n` dimensions.
pub fn count_prefix(shape: &[usize], n: usize) -> (r: usize)
    requires
        n <= shape@.len(),
        countable(shape@.take(n as int)),
    ensures
        r == product(shape@.take(n as int)),
{
    let ghost head = shape@.take(n as int);
    let mut total: usize = 1;
    let mut i: usize = 0;
    assert(head.take(0) =~= Seq::<usize>::empty());
    while i < n
        invariant
            i <= n <= shape@.len(),
            head == shape@.take(n as int),
            countable(head),
            total == product(head.take(i as int)),
        decreases n - i,
    {
        proof {
            lemma_countable_prefix(head, i + 1);
            assert(head.take(i + 1).drop_last() =~= head.take(i as int));
            assert(head.take(i + 1).last() == shape@[i as int]);
            lemma_product_nonneg(head.take(i + 1));
        }
        total = total * shape[i];
        i += 1;
    }
    assert(head.take(n as int) =~= head);
    total
}

/// A tensor in host memory.
pub struct CpuTensor<T> {
    /// The elements, row-major.
    pub data: Vec<T>,
    /// The dimensions.
    pub shape: Vec<usize>,
}

impl<T: Copy> CpuTensor<T> {
    /// A buffer that has as many elements as its shape says.
    pub open spec fn valid(self) -> bool {
        countable(self.shape@) && self.data@.len() == product(self.shape@)
    }

    /// A tensor out of its elements.
    pub fn new(data: Vec<T>, shape: Vec<usize>) -> (r: Self)
        requires
            countable(shape@),
            data@.len() == product(shape@),
        ensures
            r.valid(),
            r.data@ == data@,
            r.shape@ == shape@,
    {
        CpuTensor { data, shape }
    }

    /// Number of elements.
    pub fn numel(&self) -> (r: usize)
        ensures
            r == self.data@.len(),
            self.valid() ==> r == product(self.shape@),
    {
        self.data.len()
    }

    /// The same elements under another shape.
    pub fn reshape(self, shape: Vec<usize>) -> (r: Self)
        requires
            countable(shape@),
            self.data@.len() == product(shape@),
        ensures
            r.valid(),
            r.data@ == self.data@,
            r.shape@ == shape@,
    {
        CpuTensor { data: self.data, shape }
    }

    /// The last row of a `[1, sl, hidden]` tensor, as `[1, 1, hidden]`. A tensor
    /// of one row is left as it is.
    pub fn last_token(self) -> (r: Self)
        requires
            self.valid(),
            self.shape@.len() == 3,
            self.shape@[0] == 1,
            0 < self.shape@[1],
        ensures
            r.valid(),
            r.shape@ == seq![1usize, 1usize, self.shape@[2]],
            r.data@ == self.data@.skip((self.shape@[1] - 1) * self.shape@[2]),
            r.data@.len() == self.shape@[2],
    {
        let sl: usize = self.shape[1];
        let hidden: usize = self.shape[2];
        proof {
            assert(self.shape@ =~= seq![1usize, sl, hidden]);
            lemma_product3(1, sl, hidden);
            assert(1 * sl * hidden == sl * hidden) by (nonlinear_arith);
            assert((sl - 1) * hidden + hidden == sl * hidden) by (nonlinear_arith);
            lemma_monotone(0, 0, sl - 1, hidden as int);
            lemma_product3(1, 1, hidden);
            assert(1 * 1 * hidden == hidden) by (nonlinear_arith);
            assert(self.data.len() <= usize::MAX);
        }
        let last_off: usize = (sl - 1) * hidden;
        let mut data: Vec<T> = Vec::new();
        append_copy(
            &mut data,
            vstd::slice::slice_subrange(self.data.as_slice(), last_off, last_off + hidden),
        );
        assert(data@ =~= self.data@.skip(last_off as int));
        let shape: Vec<usize> = vec![1usize, 1usize, hidden];
        assert(shape@ =~= seq![1usize, 1usize, hidden]);
        CpuTensor { data, shape }
    }
}

/// Source position of element `k` when `[b, c, f, t]` becomes `[b, t, c, f]`.
pub open spec fn bcft_source(k: int, c: int, f: int, t: int) -> int {
    let jf = k % f;
    let jc = (k / f) % c;
    let jt = (k / f / c) % t;
    let jb = k / f / c / t;
    ((jb * c + jc) * f + jf) * t + jt
}

/// Moves the last axis of `[b, c, f, t]` in front of the two before it, so that
/// the features of one time step lie together.
pub fn permute_bcft_to_btcf<T: Copy>(x: &[T], b: usize, c: usize, f: usize, t: usize) -> (r: Vec<T>)
    requires
        x@.len() == b * c * f * t,
        b * t * c * f <= usize::MAX,
    ensures
        r@.len() == b * t * c * f,
        forall|ib: int, it: int, ic: int, jf: int|
            0 <= ib < b && 0 <= it < t && 0 <= ic < c && 0 <= jf < f ==> r@[#[trigger] (((ib * t
                + it) * c + ic) * f + jf)] == x@[((ib * c + ic) * f + jf) * t + it],
{
    let mut out: Vec<T> = Vec::new();
    if b == 0 || c == 0 || f == 0 || t == 0 {
        proof {
            assert(b * t * c * f == 0) by (nonlinear_arith)
                requires
                    b == 0 || c == 0 || f == 0 || t == 0,
            ;
        }
        return out;
    }
    proof {
        assert(x.len() <= usize::MAX);
        assert(b * t * c * f == b * c * f * t) by (nonlinear_arith);
        lemma_monotone(0, 0, b as int, t as int);
        lemma_monotone(0, 0, b * t, c as int);
        lemma_grows(b * t * c, f as int);
        lemma_grows(b * t, c as int);
    }
    let total: usize = b * t * c * f;
    let mut k: usize = 0;
    while k < total
        invariant
            k <= total,
            total == b * t * c * f,
            0 < b,
            0 < c,
            0 < f,
            0 < t,
            x@.len() == b * c * f * t,
            x@.len() <= usize::MAX,
            out@.len() == k,
            forall|i: int|
                0 <= i < k ==> #[trigger] out@[i] == x@[bcft_source(
                    i,
                    c as int,
                    f as int,
                    t as int,
                )],
        decreases total - k,
    {
        let jf: usize = k % f;
        let kc: usize = k / f;
        let jc: usize = kc % c;
        let kt: usize = kc / c;
        let jt: usize = kt % t;
        let jb: usize = kt / t;
        proof {
            lemma_row_below(k as int, b * t * c, f as int);
            lemma_row_below(kc as int, b * t, c as int);
            lemma_row_below(kt as int, b as int, t as int);
            lemma_inside(jb as int, b as int, c as int, jc as int);
            lemma_inside(jb * c + jc, b * c, f as int, jf as int);
            lemma_inside((jb * c + jc) * f + jf, b * c * f, t as int, jt as int);
            lemma_grows(b * c * f, t as int);
            lemma_grows(b * c, f as int);
            lemma_monotone(0, 0, jb as int, c as int);
            lemma_monotone(0, 0, jb * c + jc, f as int);
            lemma_monotone(0, 0, (jb * c + jc) * f + jf, t as int);
        }
        let src: usize = ((jb * c + jc) * f + jf) * t + jt;
        out.push(x[src]);
        k += 1;
    }
    proof {
        assert forall|ib: int, it: int, ic: int, jf: int|
            0 <= ib < b && 0 <= it < t && 0 <= ic < c && 0 <= jf < f implies out@[#[trigger] (((ib
            * t + it) * c + ic) * f + jf)] == x@[((ib * c + ic) * f + jf) * t + it] by {
            let q = (ib * t + it) * c + ic;
            lemma_split(q, f as int, jf);
            lemma_split(ib * t + it, c as int, ic);
            lemma_split(ib, t as int, it);
            lemma_inside(ib, b as int, t as int, it);
            lemma_inside(ib * t + it, b * t, c as int, ic);
            lemma_inside(q, b * t * c, f as int, jf);
        }
    }
    out
}

} // verus!
