//! What the kernels and matrix products make of buffers on the device.
//!
//! A kernel is told sizes by its integers and shares its work out to the threads of
//! its launch. [`admits`] says what has to hold for it to do its work: that the buffers
//! have the sizes that it is told, and that there are threads for all of it. [`effect`]
//! says what it leaves in the buffers that it writes. [`Device`] runs launches and
//! products on buffers that are known by name.
use vstd::prelude::*;

use crate::cudarc_engine::{BatchedPlan, KernelPlan, LinearPlan};
use crate::launch::{Kernel, Launch};
use crate::linear::GemmConfig;
use crate::steps::Operands;
use crate::tensor::product;
use crate::terms::{attention, PartOf, Term};

verus! {

/// A buffer: what it holds and how many elements it has.
pub struct Buffer<O> {
    pub term: Term<O>,
    pub len: int,
}

/// A thread for each of `n` elements.
pub open spec fn thread_each(l: Launch, n: int) -> bool {
    let (grid, block) = (l.config.grid_dim, l.config.block_dim);
    &&& n <= grid.0 * block.0
    &&& (grid.1, grid.2, block.1, block.2) == (1u32, 1u32, 1u32, 1u32)
    &&& 1 <= block.0 <= 1024
}

/// A block for each of `rows` rows in each of `columns` columns, whose threads halve
/// their number until one is left, with `words` numbers of four bytes for each thread.
pub open spec fn block_each(l: Launch, rows: int, columns: int, words: int) -> bool {
    let (grid, block) = (l.config.grid_dim, l.config.block_dim);
    &&& grid.0 == rows
    &&& grid.1 == columns
    &&& grid.2 == 1
    &&& (block.1, block.2) == (1u32, 1u32)
    &&& block.0 == 32 || block.0 == 64 || block.0 == 128 || block.0 == 256 || block.0 == 512
        || block.0 == 1024
    &&& block.0 * 4 * words <= l.config.shared_mem_bytes
}

/// Shared memory for `scores` scores and the partial outputs of a head of width `d`,
/// of which the threads of a block make as many as there is room for, and at least one.
pub open spec fn room_for_scores(l: Launch, scores: int, d: int) -> bool {
    let parts = if d <= l.config.block_dim.0 {
        l.config.block_dim.0 as int / d
    } else {
        1
    };
    &&& (l.config.block_dim.1, l.config.block_dim.2) == (1u32, 1u32)
    &&& 1 <= l.config.block_dim.0 <= 1024
    &&& 4 * (scores + d * parts) <= l.config.shared_mem_bytes
}

/// Attention of a token of `b` sequences with `nqh` heads of width `d` each to `cur`
/// positions of caches with room for `max`: sizes of queries and caches.
pub open spec fn attends_to(
    ins: Seq<int>,
    b: int,
    nqh: int,
    nkvh: int,
    max: int,
    d: int,
    cur: int,
) -> bool {
    &&& ins =~= seq![b * nqh * d, b * nkvh * max * d, b * nkvh * max * d]
    &&& 0 < cur <= max
    &&& 0 < d
    &&& 0 < nkvh
    &&& nqh % nkvh == 0
}

/// Whether a launch does all of its work on buffers with `outs` elements that it
/// writes and `ins` elements that it reads.
#[verifier::opaque]
pub open spec fn admits(l: Launch, outs: Seq<int>, ins: Seq<int>) -> bool {
    let i = Seq::new(l.ints@.len(), |k: int| l.ints@[k] as int);
    match l.kernel {
        // Width and number of rows.
        Kernel::RmsNorm => {
            &&& i.len() == 2
            &&& outs =~= seq![i[1] * i[0]]
            &&& ins =~= seq![i[1] * i[0], i[0]]
            &&& block_each(l, i[1], 1, 1)
        },
        Kernel::LayerNorm => {
            &&& i.len() == 2
            &&& outs =~= seq![i[1] * i[0]]
            &&& ins =~= seq![i[1] * i[0], i[0], i[0]]
            &&& block_each(l, i[1], 1, 2)
        },
        // Elements.
        Kernel::Add => {
            &&& i.len() == 1
            &&& outs =~= seq![i[0]]
            &&& ins =~= seq![i[0], i[0]]
            &&& thread_each(l, i[0])
        },
        Kernel::AddInplace => {
            &&& i.len() == 1
            &&& outs =~= seq![i[0]]
            &&& ins =~= seq![i[0]]
            &&& thread_each(l, i[0])
        },
        Kernel::GeluInplace => {
            &&& i.len() == 1
            &&& outs =~= seq![i[0]]
            &&& ins =~= Seq::<int>::empty()
            &&& thread_each(l, i[0])
        },
        // Rows and their width.
        Kernel::AddBiasInplace => {
            &&& i.len() == 2
            &&& outs =~= seq![i[0] * i[1]]
            &&& ins =~= seq![i[1]]
            &&& thread_each(l, i[0] * i[1])
        },
        // Rows, and half their width.
        Kernel::SiluMulSplit => {
            &&& i.len() == 2
            &&& outs =~= seq![i[0] * i[1]]
            &&& ins =~= seq![i[0] * (2 * i[1])]
            &&& thread_each(l, i[0] * i[1])
        },
        // Queries and positions of one head, and whether there is a mask.
        Kernel::SoftmaxCausal => {
            &&& i.len() == 3
            &&& 0 < i[0]
            &&& l.config.grid_dim.0 as int % i[0] == 0
            &&& outs =~= seq![l.config.grid_dim.0 * i[1]]
            &&& ins =~= outs
            &&& block_each(l, l.config.grid_dim.0 as int, 1, 1)
        },
        // Sequences, heads, room, width of a head, repetitions, positions.
        Kernel::RepeatKvFromCache => {
            &&& i.len() == 6
            &&& outs =~= seq![i[0] * (i[1] * i[4]) * i[5] * i[3]]
            &&& ins =~= seq![i[0] * i[1] * i[2] * i[3]]
            &&& i[5] <= i[2]
            &&& thread_each(l, i[0] * (i[1] * i[4]) * i[5] * i[3])
        },
        // The four axes.
        Kernel::SwapDims12 => {
            &&& i.len() == 4
            &&& outs =~= seq![i[0] * i[1] * i[2] * i[3]]
            &&& ins =~= outs
            &&& thread_each(l, i[0] * i[1] * i[2] * i[3])
        },
        // Sequences, query heads, key-value heads, tokens, width of a head, columns,
        // those of queries, those of keys, room, first position, first angle.
        Kernel::QkvExtractQkvNormRotaryCache => {
            &&& i.len() == 11
            &&& outs =~= seq![
                i[0] * i[1] * i[3] * i[4],
                i[0] * i[2] * i[8] * i[4],
                i[0] * i[2] * i[8] * i[4],
            ]
            &&& ins.len() == 5
            &&& (ins[0], ins[1], ins[2]) == (i[0] * i[3] * i[5], i[4], i[4])
            &&& (i[10] + i[3]) * i[4] <= ins[3]
            &&& (i[10] + i[3]) * i[4] <= ins[4]
            &&& i[6] == i[1] * i[4]
            &&& i[7] == i[2] * i[4]
            &&& i[5] == i[6] + 2 * i[7]
            &&& i[9] + i[3] <= i[8]
            &&& block_each(l, i[0] * i[3], i[1] + i[2], 1)
        },
        // Sequences, query heads, key-value heads, room, width of a head, positions. A
        // block for each head.
        Kernel::FusedGqaDecode => {
            &&& i.len() == 6
            &&& outs =~= seq![i[0] * i[1] * i[4]]
            &&& attends_to(ins, i[0], i[1], i[2], i[3], i[4], i[5])
            &&& l.config.grid_dim.0 == i[0] * i[1]
            &&& (l.config.grid_dim.1, l.config.grid_dim.2) == (1u32, 1u32)
            &&& room_for_scores(l, i[5], i[4])
        },
        // The same, then positions in a part, and parts. A block for each head and part;
        // further blocks have nothing to do.
        Kernel::FusedGqaDecodeSplitP1 => {
            &&& i.len() == 8
            &&& outs.len() == 3
            &&& i[0] * i[1] * i[7] * i[4] <= outs[0]
            &&& i[0] * i[1] * i[7] <= outs[1]
            &&& i[0] * i[1] * i[7] <= outs[2]
            &&& attends_to(ins, i[0], i[1], i[2], i[3], i[4], i[5])
            &&& (i[7] - 1) * i[6] < i[5] <= i[7] * i[6]
            &&& l.config.grid_dim.0 == i[0] * i[1]
            &&& i[7] <= l.config.grid_dim.1
            &&& l.config.grid_dim.2 == 1
            &&& room_for_scores(l, i[6], i[4])
        },
        // Sequences, query heads, parts, width of a head. A block for each head and a
        // thread for each of its numbers.
        Kernel::FusedGqaDecodeSplitP2 => {
            &&& i.len() == 4
            &&& outs =~= seq![i[0] * i[1] * i[3]]
            &&& ins.len() == 3
            &&& i[0] * i[1] * i[2] * i[3] <= ins[0]
            &&& i[0] * i[1] * i[2] <= ins[1]
            &&& i[0] * i[1] * i[2] <= ins[2]
            &&& l.config.grid_dim.0 == i[0] * i[1]
            &&& (l.config.grid_dim.1, l.config.grid_dim.2) == (1u32, 1u32)
            &&& l.config.block_dim.0 == i[3]
            &&& (l.config.block_dim.1, l.config.block_dim.2) == (1u32, 1u32)
        },
        // The four axes, first row of the third, rows.
        Kernel::SliceDim2 => {
            &&& i.len() == 6
            &&& outs =~= seq![i[0] * i[1] * i[5] * i[3]]
            &&& ins =~= seq![i[0] * i[1] * i[2] * i[3]]
            &&& i[4] + i[5] <= i[2]
            &&& thread_each(l, i[0] * i[1] * i[5] * i[3])
        },
        Kernel::ConcatDim2Write => {
            &&& i.len() == 6
            &&& outs =~= seq![i[0] * i[1] * i[2] * i[3]]
            &&& ins =~= seq![i[0] * i[1] * i[5] * i[3]]
            &&& i[4] + i[5] <= i[2]
            &&& thread_each(l, i[0] * i[1] * i[5] * i[3])
        },
        // Pictures, channels, height, width, and height and width of the result, whose
        // last row and column stand over the last or the last but one of the input.
        Kernel::Im2col3x3 => {
            &&& i.len() == 6
            &&& outs =~= seq![i[0] * i[4] * i[5] * (i[1] * 9)]
            &&& ins =~= seq![i[0] * i[1] * i[2] * i[3]]
            &&& 2 * (i[4] - 1) < i[2] <= 2 * i[4]
            &&& 2 * (i[5] - 1) < i[3] <= 2 * i[5]
            &&& thread_each(l, i[0] * i[4] * i[5] * (i[1] * 9))
        },
        // Pictures, channels, height, width.
        Kernel::ConvPostprocess => {
            &&& i.len() == 4
            &&& outs =~= seq![i[0] * i[1] * i[2] * i[3]]
            &&& ins =~= seq![i[0] * i[1] * i[2] * i[3], i[1]]
            &&& thread_each(l, i[0] * i[1] * i[2] * i[3])
        },
        // Elements, and the slot for the answer.
        Kernel::ArgmaxIntoSlot => {
            &&& i.len() == 2
            &&& outs.len() == 1
            &&& 0 <= i[1] < outs[0]
            &&& ins =~= seq![i[0]]
            &&& l.config.grid_dim == (1u32, 1u32, 1u32)
            &&& l.config.block_dim == (1024u32, 1u32, 1u32)
        },
        _ => false,
    }
}

/// What a launch leaves in the buffers that it writes, of what they held and of what
/// it reads.
#[verifier::opaque]
pub open spec fn effect<O>(l: Launch, olds: Seq<Term<O>>, ins: Seq<Term<O>>) -> Seq<Term<O>> {
    let i = Seq::new(l.ints@.len(), |k: int| l.ints@[k] as int);
    match l.kernel {
        Kernel::RmsNorm => seq![Term::RmsNormed(Box::new(ins[0]), Box::new(ins[1]))],
        Kernel::LayerNorm => seq![
            Term::LayerNormed(Box::new(ins[0]), Box::new(ins[1]), Box::new(ins[2])),
        ],
        Kernel::Add => seq![Term::Sum(Box::new(ins[0]), Box::new(ins[1]))],
        Kernel::AddInplace => seq![Term::Sum(Box::new(olds[0]), Box::new(ins[0]))],
        Kernel::GeluInplace => seq![Term::Activated(Box::new(olds[0]))],
        Kernel::AddBiasInplace => seq![Term::Biased(Box::new(olds[0]), Box::new(ins[0]))],
        Kernel::SiluMulSplit => seq![Term::Gated(Box::new(ins[0]))],
        Kernel::SoftmaxCausal => seq![
            Term::Weights { scores: Box::new(ins[0]), masked: i[2] != 0 },
        ],
        Kernel::RepeatKvFromCache => seq![
            Term::Repeated { cache: Box::new(ins[0]), positions: i[5], sharing: i[4] },
        ],
        Kernel::SwapDims12 => seq![Term::Swapped(Box::new(ins[0]))],
        Kernel::QkvExtractQkvNormRotaryCache => {
            let turned = |norm: Term<O>, heads: int, first_column: int| Term::Turned {
                of: Box::new(
                    Term::Heads { of: Box::new(ins[0]), heads, width: i[4], first_column },
                ),
                weight: Box::new(norm),
                cos: Box::new(ins[3]),
                sin: Box::new(ins[4]),
                first: i[10],
            };
            let values = Term::Heads {
                of: Box::new(ins[0]),
                heads: i[2],
                width: i[4],
                first_column: i[6] + i[7],
            };
            seq![
                turned(ins[1], i[1], 0),
                Term::Stored {
                    cache: Box::new(olds[1]),
                    new: Box::new(turned(ins[2], i[2], i[6])),
                    first: i[9],
                },
                Term::Stored { cache: Box::new(olds[2]), new: Box::new(values), first: i[9] },
            ]
        },
        Kernel::FusedGqaDecode => seq![
            attention(ins[0], ins[1], ins[2], i[5], i[1] / i[2], false),
        ],
        Kernel::FusedGqaDecodeSplitP1 => {
            let all = Box::new(attention(ins[0], ins[1], ins[2], i[5], i[1] / i[2], false));
            seq![
                Term::Part { attention: all, what: PartOf::Output, parts: i[7] },
                Term::Part { attention: all, what: PartOf::Greatest, parts: i[7] },
                Term::Part { attention: all, what: PartOf::Sum, parts: i[7] },
            ]
        },
        Kernel::FusedGqaDecodeSplitP2 => {
            let whole = match ins[0] {
                Term::Part { attention, what: PartOf::Output, parts } => {
                    if parts == i[2] && ins[1] == (Term::Part {
                        attention,
                        what: PartOf::Greatest,
                        parts,
                    }) && ins[2] == (Term::Part { attention, what: PartOf::Sum, parts }) {
                        *attention
                    } else {
                        Term::Unknown
                    }
                },
                _ => Term::Unknown,
            };
            seq![whole]
        },
        Kernel::SliceDim2 => seq![
            Term::Slice { of: Box::new(ins[0]), start: i[4], len: i[5] },
        ],
        Kernel::ConcatDim2Write => seq![
            Term::Overwritten {
                under: Box::new(olds[0]),
                with: Box::new(ins[0]),
                start: i[4],
                len: i[5],
            },
        ],
        Kernel::Im2col3x3 => seq![Term::Unfolded(Box::new(ins[0]))],
        Kernel::ConvPostprocess => seq![Term::Folded(Box::new(ins[0]), Box::new(ins[1]))],
        Kernel::ArgmaxIntoSlot => seq![Term::Greatest(Box::new(ins[0]))],
        _ => Seq::new(olds.len(), |k: int| Term::Unknown),
    }
}

/// `y = x W^T` with `a = W` and `b = x`, all row-major, for as many rows of `x` as `c`
/// has columns.
pub open spec fn is_row_product(g: GemmConfig) -> bool {
    &&& g.transa
    &&& forall|row: int, col: int| #[trigger] g.c(col, row) == row * g.m + col
    &&& forall|col: int, l: int| #[trigger] g.a(col, l) == col * g.k + l
    &&& forall|l: int, row: int| #[trigger] g.b(l, row) == row * g.k + l
}

/// `y = w V` with `a = V` and `b = w`, all row-major.
pub open spec fn is_mixture(g: GemmConfig) -> bool {
    &&& !g.transa
    &&& !g.accumulate
    &&& forall|row: int, col: int| #[trigger] g.c(col, row) == row * g.m + col
    &&& forall|col: int, l: int| #[trigger] g.a(col, l) == l * g.m + col
    &&& forall|l: int, row: int| #[trigger] g.b(l, row) == row * g.k + l
}

/// Buffers by name, and whether everything that was run had what it needs.
#[verifier::reject_recursive_types(O)]
pub struct Device<O> {
    pub held: Map<O, Buffer<O>>,
    pub ok: bool,
}

impl<O> Device<O> {
    /// Whether there are buffers of these names.
    pub open spec fn has(self, names: Seq<O>) -> bool {
        forall|k: int| 0 <= k < names.len() ==> self.held.contains_key(#[trigger] names[k])
    }

    /// Sizes of the buffers of these names.
    pub open spec fn lens(self, names: Seq<O>) -> Seq<int> {
        Seq::new(names.len(), |k: int| self.held[names[k]].len)
    }

    /// What the buffers of these names hold.
    pub open spec fn terms(self, names: Seq<O>) -> Seq<Term<O>> {
        Seq::new(names.len(), |k: int| self.held[names[k]].term)
    }

    /// A buffer of `len` elements that nothing was written to yet.
    pub open spec fn with_buffer(self, name: O, len: int) -> Self {
        Device { held: self.held.insert(name, Buffer { term: Term::Unknown, len }), ..self }
    }

    /// A buffer now holds something else.
    pub open spec fn now(self, name: O, term: Term<O>) -> Self {
        Device {
            held: self.held.insert(name, Buffer { term, len: self.held[name].len }),
            ..self
        }
    }

    /// After a launch, which writes one buffer or three.
    #[verifier::opaque]
    pub open spec fn launch(self, l: Launch, on: Operands<O>) -> Self {
        let (to, from) = (on.writes@, on.reads@);
        let out = effect(l, self.terms(to), self.terms(from));
        let fine = self.ok && self.has(to) && self.has(from) && admits(
            l,
            self.lens(to),
            self.lens(from),
        );
        let after = if to.len() == 3 {
            self.now(to[0], out[0]).now(to[1], out[1]).now(to[2], out[2])
        } else {
            self.now(to[0], out[0])
        };
        Device { ok: fine && (to.len() == 1 || to.len() == 3), ..after }
    }

    /// After a launch into a buffer that was made for its result, the first that it
    /// writes.
    pub open spec fn kernel(self, p: KernelPlan, on: Operands<O>) -> Self {
        self.with_buffer(on.writes@[0], product(p.out@)).launch(p.launch, on)
    }

    /// After a product, added to what the buffer holds where it says so.
    #[verifier::opaque]
    pub open spec fn gemm(self, g: GemmConfig, on: Operands<O>) -> Self {
        let (to, from) = (on.writes@, on.reads@);
        let made = Term::Product(
            Box::new(self.held[from[0]].term),
            Box::new(self.held[from[1]].term),
        );
        let fine = {
            &&& self.ok
            &&& to.len() == 1
            &&& from.len() == 2
            &&& self.has(to)
            &&& self.has(from)
            &&& is_row_product(g)
            &&& self.held[from[0]].len == g.m * g.k
            &&& self.held[from[1]].len == g.n * g.k
            &&& self.held[to[0]].len == g.n * g.m
        };
        let after = self.now(
            to[0],
            if g.accumulate {
                Term::Sum(Box::new(self.held[to[0]].term), Box::new(made))
            } else {
                made
            },
        );
        Device { ok: fine, ..after }
    }

    /// After a product into a buffer that was made for it.
    pub open spec fn linear(self, p: LinearPlan, on: Operands<O>) -> Self {
        self.with_buffer(on.writes@[0], product(p.out@)).gemm(p.gemm, on)
    }

    /// Whether a batch of products has matrices of its sizes, one behind the other.
    #[verifier::opaque]
    pub open spec fn batch_fits(self, p: BatchedPlan, on: Operands<O>) -> bool {
        let (g, from) = (p.gemm.gemm, on.reads@);
        &&& self.ok
        &&& on.writes@.len() == 1
        &&& from.len() == 2
        &&& self.has(from)
        &&& p.gemm.stride_a == g.m * g.k
        &&& p.gemm.stride_b == g.n * g.k
        &&& p.gemm.stride_c == g.n * g.m
        &&& self.held[from[0]].len == p.gemm.batch_size * p.gemm.stride_a
        &&& self.held[from[1]].len == p.gemm.batch_size * p.gemm.stride_b
        &&& product(p.out@) == p.gemm.batch_size * p.gemm.stride_c
    }

    /// After the scores of keys, which are read first, and queries.
    #[verifier::opaque]
    pub open spec fn scores(self, p: BatchedPlan, on: Operands<O>) -> Self {
        let from = on.reads@;
        let fine = self.batch_fits(p, on) && is_row_product(p.gemm.gemm)
            && !p.gemm.gemm.accumulate;
        let after = self.with_buffer(on.writes@[0], product(p.out@)).now(
            on.writes@[0],
            Term::Scores(Box::new(self.held[from[0]].term), Box::new(self.held[from[1]].term)),
        );
        Device { ok: fine, ..after }
    }

    /// After values, which are read first, were summed with weights.
    #[verifier::opaque]
    pub open spec fn mix(self, p: BatchedPlan, on: Operands<O>) -> Self {
        let from = on.reads@;
        let fine = self.batch_fits(p, on) && is_mixture(p.gemm.gemm);
        let after = self.with_buffer(on.writes@[0], product(p.out@)).now(
            on.writes@[0],
            Term::Mixed(Box::new(self.held[from[0]].term), Box::new(self.held[from[1]].term)),
        );
        Device { ok: fine, ..after }
    }
}

} // verus!
