//! Model shape, as far as the host logic reads it.

use vstd::prelude::*;

verus! {

/// How a layer mixes tokens.
#[derive(Clone, Copy, Debug, PartialEq, Eq, Structural)]
pub enum LayerKind {
    FullAttention,
    LinearAttention,
}

/// Shape of the recurrent (linear-attention) layers.
#[derive(Clone, Copy, Debug, PartialEq, Eq, Structural)]
pub struct SsmConfig {
    pub state_size: usize,
    pub group_count: usize,
    pub time_step_rank: usize,
    pub conv_kernel: usize,
}

impl SsmConfig {
    /// Width of the keys.
    pub open spec fn key_dim(&self) -> int {
        self.state_size * self.group_count
    }

    /// Width of the values.
    pub open spec fn value_dim(&self) -> int {
        self.state_size * self.time_step_rank
    }

    /// Width of the convolution: queries and keys, then values.
    pub open spec fn conv_dim(&self) -> int {
        self.key_dim() * 2 + self.value_dim()
    }

    /// Elements of one layer's recurrent state.
    pub open spec fn state_len(&self) -> int {
        self.state_size * self.state_size * self.time_step_rank
    }

    /// Elements of one layer's convolution ring.
    pub open spec fn ring_len(&self) -> int {
        self.conv_dim() * (self.conv_kernel - 1)
    }

    /// The kernel is not empty and all buffer lengths fit.
    pub open spec fn fits(&self) -> bool {
        &&& self.conv_kernel >= 1
        &&& self.key_dim() <= usize::MAX
        &&& self.value_dim() <= usize::MAX
        &&& self.conv_dim() <= usize::MAX
        &&& self.state_size * self.state_size <= usize::MAX
        &&& self.state_len() <= usize::MAX
        &&& self.ring_len() <= usize::MAX
    }
}

/// Expert routing.
#[derive(Clone, Copy, Debug, PartialEq, Eq, Structural)]
pub struct MoeConfig {
    pub expert_count: usize,
    pub expert_ff_length: usize,
}

/// Gemma-4 extras.
#[derive(Debug)]
pub struct Gemma4Config {
    /// Trailing layers that read another layer's KV cache.
    pub shared_kv_layers: usize,
    /// Per layer, whether its attention is windowed; layers beyond the list are.
    pub swa_pattern: Vec<bool>,
    pub sliding_window: usize,
    pub n_embd_per_layer: usize,
}

/// The model as the host logic sees it.
#[derive(Debug)]
pub struct ModelConfig {
    pub n_layer: usize,
    /// Trailing layers that belong to the draft head.
    pub nextn_predict_layers: usize,
    pub n_embd: usize,
    pub n_head: usize,
    pub n_head_kv: usize,
    pub head_dim_k: usize,
    pub rope_dim_count: usize,
    pub n_vocab: usize,
    /// Kind of each layer; layers beyond the list are full attention.
    pub kinds: Vec<LayerKind>,
    /// The query projection carries an output gate.
    pub attn_out_gate: bool,
    pub ssm: Option<SsmConfig>,
    pub moe: Option<MoeConfig>,
    /// MiniMax-M3: per layer, 0 for a dense layer.
    pub m3_moe_layer_freq: Option<Vec<u32>>,
    /// Hy3: leading dense layers.
    pub hy3_first_k_dense: Option<usize>,
    pub gemma4: Option<Gemma4Config>,
}

impl ModelConfig {
    /// Kind of layer `il`.
    pub open spec fn kind_of(&self, il: int) -> LayerKind {
        if 0 <= il < self.kinds@.len() {
            self.kinds@[il]
        } else {
            LayerKind::FullAttention
        }
    }

    /// The model belongs to the M3 family.
    pub open spec fn is_m3(&self) -> bool {
        self.m3_moe_layer_freq is Some
    }

    /// Width of the queries.
    pub open spec fn q_dim(&self) -> int {
        self.n_head * self.head_dim_k
    }

    /// Width of the keys and of the values.
    pub open spec fn kv_dim(&self) -> int {
        self.n_head_kv * self.head_dim_k
    }

    /// Attention buffer lengths for up to `rows` rows fit.
    pub open spec fn fits_rows(&self, rows: int) -> bool {
        &&& rows * self.n_embd <= usize::MAX
        &&& self.q_dim() <= usize::MAX
        &&& self.kv_dim() <= usize::MAX
        &&& rows * self.n_head <= usize::MAX
        &&& rows * self.n_head_kv <= usize::MAX
        &&& rows * self.q_dim() <= usize::MAX
        &&& rows * self.kv_dim() <= usize::MAX
        &&& self.ssm matches Some(s) ==> s.fits()
    }

    /// Layers of the trunk: all but the draft head's.
    pub open spec fn trunk(&self) -> int {
        self.n_layer - self.nextn_predict_layers
    }

    /// Kind of layer `il`.
    pub fn layer_kind(&self, il: usize) -> (r: LayerKind)
        ensures
            r == self.kind_of(il as int),
    {
        if il < self.kinds.len() {
            self.kinds[il]
        } else {
            LayerKind::FullAttention
        }
    }

    /// The number of trunk layers.
    pub fn n_trunk(&self) -> (r: usize)
        requires
            self.nextn_predict_layers <= self.n_layer,
        ensures
            r == self.trunk(),
    {
        self.n_layer - self.nextn_predict_layers
    }
}

/// A weight tensor as the host logic sees it: its shape and the kernels that can read it.
#[derive(Clone, Copy, Debug, PartialEq, Eq, Structural)]
pub struct GpuTensor {
    pub in_f: usize,
    pub out_f: usize,
    /// Its projection reads q8_1 rows.
    pub q8_1_fast: bool,
    /// A one-row projection can leave out its macro scale.
    pub separable: bool,
    /// Its macro scale is one.
    pub unit_scale: bool,
}

/// Weights of a full-attention layer.
#[derive(Clone, Copy, Debug, PartialEq, Eq, Structural)]
pub struct FullAttnLayer {
    pub wq: GpuTensor,
    pub wk: GpuTensor,
    pub wv: GpuTensor,
    pub wo: GpuTensor,
    pub q_norm: GpuTensor,
    pub k_norm: GpuTensor,
}

/// Weights of a linear-attention layer.
#[derive(Clone, Copy, Debug, PartialEq, Eq, Structural)]
pub struct LinearAttnLayer {
    pub wqkv: GpuTensor,
    pub wqkv_gate: GpuTensor,
    pub ssm_beta: GpuTensor,
    pub ssm_alpha: GpuTensor,
    pub ssm_a: GpuTensor,
    pub ssm_dt: GpuTensor,
    pub ssm_conv1d: GpuTensor,
    pub ssm_norm: GpuTensor,
    pub ssm_out: GpuTensor,
}

/// A layer's token mixer.
#[derive(Clone, Copy, Debug, PartialEq, Eq, Structural)]
pub enum Mixer {
    Full(FullAttnLayer),
    Linear(LinearAttnLayer),
}

/// A layer's feed-forward block.
#[derive(Clone, Copy, Debug, PartialEq, Eq, Structural)]
pub enum Ffn {
    Dense { ffn_gate: GpuTensor, ffn_up: GpuTensor, ffn_down: GpuTensor },
    Moe,
}

/// Gemma-4 E4B extras of one layer: the per-layer-embedding block, and the layer whose KV cache
/// it reads when it has none of its own.
#[derive(Clone, Copy, Debug, PartialEq, Eq, Structural)]
pub struct Gemma4E4bLayer {
    pub inp_gate: GpuTensor,
    pub proj: GpuTensor,
    pub post_norm: GpuTensor,
    pub kv_share: Option<usize>,
}

/// Which fused kernels can serve a layer's weights.
#[derive(Clone, Copy, Debug, PartialEq, Eq, Structural)]
pub struct LayerKernels {
    /// Query, key and value projections in one launch.
    pub fused3_qkv: bool,
    /// FFN gate and up projections in one launch, macro scales left out.
    pub dual_gate_up: bool,
    /// Beta and alpha projections in one launch, macro scales left out.
    pub dual_beta_alpha: bool,
    /// Beta and alpha projections in one launch.
    pub fused2_beta_alpha: bool,
    /// Mixed and gate projections in one launch.
    pub fused2_qkv: bool,
    /// Mixed and gate projections of a float row in one launch.
    pub fused2_qkv_float: bool,
}

/// One trunk layer.
#[derive(Clone, Copy, Debug, PartialEq, Eq, Structural)]
pub struct HybridLayer {
    pub mixer: Mixer,
    pub ffn: Ffn,
    pub kernels: LayerKernels,
}

impl Mixer {
    /// All input projections read q8_1 rows.
    pub open spec fn in_fast(&self) -> bool {
        match *self {
            Mixer::Full(fa) => fa.wq.q8_1_fast && fa.wk.q8_1_fast && fa.wv.q8_1_fast,
            Mixer::Linear(la) => la.wqkv.q8_1_fast && la.wqkv_gate.q8_1_fast
                && la.ssm_beta.q8_1_fast && la.ssm_alpha.q8_1_fast,
        }
    }
}

/// Whether all input projections of a mixer read q8_1 rows, so that the norm before it can emit
/// them directly.
pub fn mixer_in_q8_1_fast(mixer: &Mixer) -> (r: bool)
    ensures
        r == mixer.in_fast(),
{
    match mixer {
        Mixer::Full(fa) => fa.wq.q8_1_fast && fa.wk.q8_1_fast && fa.wv.q8_1_fast,
        Mixer::Linear(la) => la.wqkv.q8_1_fast && la.wqkv_gate.q8_1_fast && la.ssm_beta.q8_1_fast
            && la.ssm_alpha.q8_1_fast,
    }
}

/// A recurrent layer keeps all but the newest of a kernel's inputs of every channel, and a square
/// matrix for every value head.
pub proof fn law_recurrent_lengths(s: SsmConfig)
    ensures
        s.ring_len() + s.conv_dim() == s.conv_dim() * s.conv_kernel,
        s.state_len() == s.value_dim() * s.state_size,
        s.conv_dim() == s.key_dim() + s.key_dim() + s.value_dim(),
{
    let c = s.conv_dim();
    assert(c * (s.conv_kernel - 1) + c == c * s.conv_kernel) by (nonlinear_arith);
    assert(s.state_size * s.state_size * s.time_step_rank == (s.state_size * s.time_step_rank)
        * s.state_size) by (nonlinear_arith);
}

} // verus!
