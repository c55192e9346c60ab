//! Launch geometry of the GPU kernels.
use vstd::prelude::*;

use crate::text::{decimal_signed, join2, join3, signed_number};
use vstd::string::StringExecFns;

verus! {

/// The kernels of the GPU module.
#[derive(Clone, Copy, PartialEq, Eq, Structural)]
pub enum Kernel {
    RmsNorm,
    AddResidualRmsNorm,
    Add,
    AddInplace,
    SiluMul,
    SiluMulSplit,
    SoftmaxCausal,
    RotaryEmb,
    RmsNormRotary,
    RepeatKvFromCache,
    EmbedLookup,
    EmbedLookupSingleI32,
    Argmax,
    ArgmaxIntoSlot,
    SwapDims12,
    QkvSplit,
    QkvExtractQNormRotary,
    QkvExtractKvNormRotaryCache,
    QkvExtractQkvNormRotaryCache,
    KvCacheWrite,
    KvCacheWritePair,
    Gelu,
    GeluInplace,
    LayerNorm,
    AddBiasInplace,
    SliceDim2,
    ConcatDim2Write,
    Im2col3x3,
    ConvPostprocess,
    FusedGqaDecode,
    FusedGqaDecodeSplitP1,
    FusedGqaDecodeSplitP2,
    PermuteBcftToBtcf,
    AddPe,
}

impl Kernel {
    /// Name of the kernel in the compiled module.
    pub open spec fn symbol_text(self) -> Seq<char> {
        match self {
            Kernel::RmsNorm => "rms_norm_f16"@,
            Kernel::AddResidualRmsNorm => "add_residual_rms_norm_f16"@,
            Kernel::Add => "add_f16"@,
            Kernel::AddInplace => "add_inplace_f16"@,
            Kernel::SiluMul => "silu_mul_f16"@,
            Kernel::SiluMulSplit => "silu_mul_split_f16"@,
            Kernel::SoftmaxCausal => "softmax_scaled_causal_f16"@,
            Kernel::RotaryEmb => "rotary_emb_f16"@,
            Kernel::RmsNormRotary => "rms_norm_rotary_f16"@,
            Kernel::RepeatKvFromCache => "repeat_kv_from_cache_f16"@,
            Kernel::EmbedLookup => "embed_lookup_f16"@,
            Kernel::EmbedLookupSingleI32 => "embed_lookup_single_i32_f16"@,
            Kernel::Argmax => "argmax_f16"@,
            Kernel::ArgmaxIntoSlot => "argmax_into_slot_f16"@,
            Kernel::SwapDims12 => "swap_dims_12_f16"@,
            Kernel::QkvSplit => "qkv_split_f16"@,
            Kernel::QkvExtractQNormRotary => "qkv_extract_q_norm_rotary_f16"@,
            Kernel::QkvExtractKvNormRotaryCache => "qkv_extract_kv_norm_rotary_cache_f16"@,
            Kernel::QkvExtractQkvNormRotaryCache => "qkv_extract_qkv_norm_rotary_cache_f16"@,
            Kernel::KvCacheWrite => "kv_cache_write_f16"@,
            Kernel::KvCacheWritePair => "kv_cache_write_pair_f16"@,
            Kernel::Gelu => "gelu_f16"@,
            Kernel::GeluInplace => "gelu_inplace_f16"@,
            Kernel::LayerNorm => "layer_norm_f16"@,
            Kernel::AddBiasInplace => "add_bias_inplace_f16"@,
            Kernel::SliceDim2 => "slice_dim2_f16"@,
            Kernel::ConcatDim2Write => "concat_dim2_write_f16"@,
            Kernel::Im2col3x3 => "im2col_3x3_s2p1_f16"@,
            Kernel::ConvPostprocess => "conv_postprocess_f16"@,
            Kernel::FusedGqaDecode => "fused_gqa_decode_f16"@,
            Kernel::FusedGqaDecodeSplitP1 => "fused_gqa_decode_split_p1_f16"@,
            Kernel::FusedGqaDecodeSplitP2 => "fused_gqa_decode_split_p2_f16"@,
            Kernel::PermuteBcftToBtcf => "permute_bcft_to_btcf_f16"@,
            Kernel::AddPe => "add_pe_f16"@,
        }
    }

    /// Name of the kernel in the compiled module.
    pub fn symbol(&self) -> (r: &'static str)
        ensures
            r@ == self.symbol_text(),
    {
        match self {
            Kernel::RmsNorm => "rms_norm_f16",
            Kernel::AddResidualRmsNorm => "add_residual_rms_norm_f16",
            Kernel::Add => "add_f16",
            Kernel::AddInplace => "add_inplace_f16",
            Kernel::SiluMul => "silu_mul_f16",
            Kernel::SiluMulSplit => "silu_mul_split_f16",
            Kernel::SoftmaxCausal => "softmax_scaled_causal_f16",
            Kernel::RotaryEmb => "rotary_emb_f16",
            Kernel::RmsNormRotary => "rms_norm_rotary_f16",
            Kernel::RepeatKvFromCache => "repeat_kv_from_cache_f16",
            Kernel::EmbedLookup => "embed_lookup_f16",
            Kernel::EmbedLookupSingleI32 => "embed_lookup_single_i32_f16",
            Kernel::Argmax => "argmax_f16",
            Kernel::ArgmaxIntoSlot => "argmax_into_slot_f16",
            Kernel::SwapDims12 => "swap_dims_12_f16",
            Kernel::QkvSplit => "qkv_split_f16",
            Kernel::QkvExtractQNormRotary => "qkv_extract_q_norm_rotary_f16",
            Kernel::QkvExtractKvNormRotaryCache => "qkv_extract_kv_norm_rotary_cache_f16",
            Kernel::QkvExtractQkvNormRotaryCache => "qkv_extract_qkv_norm_rotary_cache_f16",
            Kernel::KvCacheWrite => "kv_cache_write_f16",
            Kernel::KvCacheWritePair => "kv_cache_write_pair_f16",
            Kernel::Gelu => "gelu_f16",
            Kernel::GeluInplace => "gelu_inplace_f16",
            Kernel::LayerNorm => "layer_norm_f16",
            Kernel::AddBiasInplace => "add_bias_inplace_f16",
            Kernel::SliceDim2 => "slice_dim2_f16",
            Kernel::ConcatDim2Write => "concat_dim2_write_f16",
            Kernel::Im2col3x3 => "im2col_3x3_s2p1_f16",
            Kernel::ConvPostprocess => "conv_postprocess_f16",
            Kernel::FusedGqaDecode => "fused_gqa_decode_f16",
            Kernel::FusedGqaDecodeSplitP1 => "fused_gqa_decode_split_p1_f16",
            Kernel::FusedGqaDecodeSplitP2 => "fused_gqa_decode_split_p2_f16",
            Kernel::PermuteBcftToBtcf => "permute_bcft_to_btcf_f16",
            Kernel::AddPe => "add_pe_f16",
        }
    }

    /// All kernels, in the order in which they are loaded.
    pub fn all() -> (r: Vec<Kernel>)
        ensures
            r@.len() == 34,
            forall|k: Kernel| #[trigger] r@.contains(k),
            r@.no_duplicates(),
    {
        let r: Vec<Kernel> = vec![
            Kernel::RmsNorm,
            Kernel::AddResidualRmsNorm,
            Kernel::Add,
            Kernel::AddInplace,
            Kernel::SiluMul,
            Kernel::SiluMulSplit,
            Kernel::SoftmaxCausal,
            Kernel::RotaryEmb,
            Kernel::RmsNormRotary,
            Kernel::RepeatKvFromCache,
            Kernel::EmbedLookup,
            Kernel::EmbedLookupSingleI32,
            Kernel::Argmax,
            Kernel::ArgmaxIntoSlot,
            Kernel::SwapDims12,
            Kernel::QkvSplit,
            Kernel::QkvExtractQNormRotary,
            Kernel::QkvExtractKvNormRotaryCache,
            Kernel::QkvExtractQkvNormRotaryCache,
            Kernel::KvCacheWrite,
            Kernel::KvCacheWritePair,
            Kernel::Gelu,
            Kernel::GeluInplace,
            Kernel::LayerNorm,
            Kernel::AddBiasInplace,
            Kernel::SliceDim2,
            Kernel::ConcatDim2Write,
            Kernel::Im2col3x3,
            Kernel::ConvPostprocess,
            Kernel::FusedGqaDecode,
            Kernel::FusedGqaDecodeSplitP1,
            Kernel::FusedGqaDecodeSplitP2,
            Kernel::PermuteBcftToBtcf,
            Kernel::AddPe,
        ];
        proof {
            assert forall|k: Kernel| #[trigger] r@.contains(k) by {
                assert(r@[k.place()] == k);
            }
            assert forall|i: int| 0 <= i < 34 implies (#[trigger] r@[i]).place() == i by {}
        }
        r
    }

    /// Where the kernel stands in the list of all kernels.
    spec fn place(self) -> int {
        match self {
            Kernel::RmsNorm => 0,
            Kernel::AddResidualRmsNorm => 1,
            Kernel::Add => 2,
            Kernel::AddInplace => 3,
            Kernel::SiluMul => 4,
            Kernel::SiluMulSplit => 5,
            Kernel::SoftmaxCausal => 6,
            Kernel::RotaryEmb => 7,
            Kernel::RmsNormRotary => 8,
            Kernel::RepeatKvFromCache => 9,
            Kernel::EmbedLookup => 10,
            Kernel::EmbedLookupSingleI32 => 11,
            Kernel::Argmax => 12,
            Kernel::ArgmaxIntoSlot => 13,
            Kernel::SwapDims12 => 14,
            Kernel::QkvSplit => 15,
            Kernel::QkvExtractQNormRotary => 16,
            Kernel::QkvExtractKvNormRotaryCache => 17,
            Kernel::QkvExtractQkvNormRotaryCache => 18,
            Kernel::KvCacheWrite => 19,
            Kernel::KvCacheWritePair => 20,
            Kernel::Gelu => 21,
            Kernel::GeluInplace => 22,
            Kernel::LayerNorm => 23,
            Kernel::AddBiasInplace => 24,
            Kernel::SliceDim2 => 25,
            Kernel::ConcatDim2Write => 26,
            Kernel::Im2col3x3 => 27,
            Kernel::ConvPostprocess => 28,
            Kernel::FusedGqaDecode => 29,
            Kernel::FusedGqaDecodeSplitP1 => 30,
            Kernel::FusedGqaDecodeSplitP2 => 31,
            Kernel::PermuteBcftToBtcf => 32,
            Kernel::AddPe => 33,
        }
    }
}

/// Grid and block of a launch.
#[derive(Clone, Copy)]
pub struct LaunchConfig {
    /// Blocks.
    pub grid_dim: (u32, u32, u32),
    /// Threads in a block.
    pub block_dim: (u32, u32, u32),
    /// Shared memory of a block, in bytes.
    pub shared_mem_bytes: u32,
}

/// One launch: the kernel, its geometry and its integer arguments.
pub struct Launch {
    /// The kernel.
    pub kernel: Kernel,
    /// Its geometry.
    pub config: LaunchConfig,
    /// The integers that it is given behind its buffers.
    pub ints: Vec<i32>,
}

impl Launch {
    /// Whether the launch is of `kernel` with the given geometry and integers.
    pub open spec fn is(
        self,
        kernel: Kernel,
        config: LaunchConfig,
        ints: Seq<i32>,
    ) -> bool {
        self.kernel == kernel && self.config == config && self.ints@ == ints
    }
}

/// Threads of a block that reduces a row of `t` elements: the smallest power of
/// two that covers the row, at least 32 and at most 1024.
pub open spec fn reduction_block(t: u32) -> u32 {
    if t <= 32 {
        32
    } else if t <= 64 {
        64
    } else if t <= 128 {
        128
    } else if t <= 256 {
        256
    } else if t <= 512 {
        512
    } else {
        1024
    }
}

/// Threads of a block that reduces a row of `last` elements.
pub fn block_for_reduction(last: usize) -> (r: u32)
    ensures
        r == reduction_block(last as u32),
{
    let mut bs: u32 = 32;
    let target: u32 = #[verifier::truncate] (last as u32);
    while bs < target && bs < 1024
        invariant
            bs == 32 || bs == 64 || bs == 128 || bs == 256 || bs == 512 || bs == 1024,
            bs <= reduction_block(target),
        ensures
            bs == reduction_block(target),
        decreases 1024 - bs,
    {
        bs = bs * 2;
    }
    bs
}

/// A reduction never has more threads than a block may have, always a whole
/// number of warps, and one thread per element while the row is short enough.
pub proof fn law_reduction_block(t: u32)
    ensures
        32 <= reduction_block(t) <= 1024,
        reduction_block(t) % 32 == 0,
        t <= 1024 ==> t <= reduction_block(t),
        64 < t <= 1024 ==> reduction_block(t) < 2 * t,
{
}

/// Geometry of one thread per element in blocks of 1024.
pub open spec fn elementwise_config(n: u32) -> LaunchConfig {
    LaunchConfig {
        grid_dim: (((n + 1023) / 1024) as u32, 1, 1),
        block_dim: (1024, 1, 1),
        shared_mem_bytes: 0,
    }
}

/// `cudarc::driver::LaunchConfig::for_num_elems` makes blocks of 1024 threads,
/// as many as it takes to have a thread for each of `n` elements, and no shared
/// memory.
#[verifier::external_body]
fn for_num_elems(n: u32) -> (r: LaunchConfig)
    ensures
        r == elementwise_config(n),
{
    let c = cudarc::driver::LaunchConfig::for_num_elems(n);
    LaunchConfig {
        grid_dim: c.grid_dim,
        block_dim: c.block_dim,
        shared_mem_bytes: c.shared_mem_bytes,
    }
}

/// Elementwise launches have a thread for every element and at most one block
/// that is not full.
pub proof fn law_elementwise_covers(n: u32)
    ensures
        n <= elementwise_config(n).grid_dim.0 * 1024,
        elementwise_config(n).grid_dim.0 * 1024 < n + 1024,
{
}

/// Plans one thread per element.
pub fn elementwise(kernel: Kernel, n: usize, ints: Vec<i32>) -> (r: Launch)
    ensures
        r.is(kernel, elementwise_config(n as u32), ints@),
{
    let config = for_num_elems(
        #[verifier::truncate]
        (n as u32),
    );
    Launch { kernel, config, ints }
}

/// Geometry of one block per row that reduces `last` elements over four bytes
/// of shared memory per thread.
pub open spec fn reduction_config(rows: u32, columns: u32, last: usize) -> LaunchConfig {
    LaunchConfig {
        grid_dim: (rows, columns, 1),
        block_dim: (reduction_block(last as u32), 1, 1),
        shared_mem_bytes: (reduction_block(last as u32) * 4) as u32,
    }
}

/// Plans one block per row.
pub fn reduction(kernel: Kernel, rows: usize, columns: usize, last: usize, ints: Vec<i32>) -> (r:
    Launch)
    ensures
        r.is(kernel, reduction_config(rows as u32, columns as u32, last), ints@),
{
    let bs: u32 = block_for_reduction(last);
    let config = LaunchConfig {
        grid_dim: (
            #[verifier::truncate]
            (rows as u32),
            #[verifier::truncate]
            (columns as u32),
            1,
        ),
        block_dim: (bs, 1, 1),
        shared_mem_bytes: bs * 4,
    };
    Launch { kernel, config, ints }
}

/// A number as a kernel argument.
pub fn arg(n: usize) -> (r: i32)
    ensures
        r == n as i32,
{
    #[verifier::truncate]
    (n as i32)
}

/// How the kernels are compiled for a device.
pub struct CompilePlan {
    /// The architecture, where the device told its compute capability.
    pub arch: Option<String>,
    /// Where the headers are.
    pub include_path: String,
}

/// The architecture of a compute capability.
pub open spec fn arch_text(major: i32, minor: i32) -> Seq<char> {
    "sm_"@ + decimal_signed(major as int) + decimal_signed(minor as int)
}

impl CompilePlan {
    /// How kernels are compiled for a device with the given compute capability
    /// and a toolkit in the given place.
    pub open spec fn describes(self, capability: Option<(i32, i32)>, cuda_path: Option<&str>) -> bool {
        &&& capability is None <==> self.arch is None
        &&& capability matches Some((major, minor)) ==> self.arch->0@ == arch_text(major, minor)
        &&& self.include_path@ == (match cuda_path {
            Some(p) => p@ + "/include"@,
            None => "/usr/local/cuda/include"@,
        })
    }
}

/// Plans the compilation, given the device's compute capability and where the
/// toolkit is installed.
pub fn compile_plan(capability: Option<(i32, i32)>, cuda_path: Option<&str>) -> (r: CompilePlan)
    ensures
        r.describes(capability, cuda_path),
{
    let arch: Option<String> = match capability {
        Some((major, minor)) => {
            let a = signed_number(major);
            let b = signed_number(minor);
            Some(join3("sm_", a.as_str(), b.as_str()))
        },
        None => None,
    };
    let include_path: String = match cuda_path {
        Some(p) => join2(p, "/include"),
        None => String::from_str("/usr/local/cuda/include"),
    };
    CompilePlan { arch, include_path }
}

} // verus!
