//! Launch plans of one decode step of the hybrid trunk.
//!
//! The step exists in several forms: with the cache lengths on the host or on the device, as a
//! body that can be captured and replayed, with or without the norms fused into their
//! neighbours. All of them compute the same.

use vstd::prelude::*;

use crate::attention;
use crate::attention::{KvMeta, RowBufs, full_attn_decode_dc_inner, full_attn_decode_pre};
use crate::config::{Ffn, HybridLayer, Mixer, ModelConfig, mixer_in_q8_1_fast};
use crate::ffn;
use crate::ffn::{PlanError, ffn_swiglu_decode, ffn_swiglu_decode_pre};
use crate::launch;
use crate::launch::{Buf, Op, Slot, Weight};
use crate::recurrent;
use crate::recurrent::linear_attn_decode_inner;

verus! {

/// Where the cache lengths of a step live.
#[derive(Clone, Copy, Debug, PartialEq, Eq, Structural)]
pub enum Counting {
    /// On the host.
    Host,
    /// In device counters, mirrored on the host.
    Device,
    /// In device counters, with the attention grid fixed for a bucket: a body to capture.
    Captured(usize),
}

/// The model and the switches of a step.
pub struct StepContext {
    pub cfg: ModelConfig,
    pub layers: Vec<HybridLayer>,
    /// Keep norms and quantization in launches of their own.
    pub no_fuse: bool,
    /// Warm the KV caches ahead of attention.
    pub prefetch: bool,
    /// Use the naive attention, which is refused.
    pub naive: bool,
}

/// A refused step: why, and what was planned before it was refused. Those launches still run: the
/// caches of the layers they reach take the row.
#[derive(Debug)]
pub struct Refused {
    pub why: PlanError,
    pub ops: Vec<Op>,
}

/// The standard row buffers.
pub open spec fn row_io() -> RowBufs {
    RowBufs { h: Buf::H, q: Buf::Hq, d: Buf::Hd, out: Buf::Mixed }
}

fn standard_row() -> (r: RowBufs)
    ensures
        r == row_io(),
{
    RowBufs { h: Buf::H, q: Buf::Hq, d: Buf::Hd, out: Buf::Mixed }
}

impl StepContext {
    /// Buffer lengths fit, and recurrent layers have their shape.
    pub open spec fn wf(&self) -> bool {
        &&& self.cfg.q_dim() <= usize::MAX
        &&& forall|i: int|
            0 <= i < self.layers@.len() ==> (#[trigger] self.layers@[i].mixer is Linear
                ==> self.cfg.ssm is Some && self.cfg.ssm->0.fits())
    }

    /// Every attention layer has a cache with room.
    pub open spec fn kv_ready(&self, kv: Seq<Option<KvMeta>>) -> bool {
        &&& kv.len() == self.layers@.len()
        &&& forall|i: int|
            #![trigger self.layers@[i]]
            0 <= i < self.layers@.len() ==> {
                &&& self.layers@[i].mixer is Full ==> kv[i] is Some && kv[i]->0.has_room()
                &&& self.layers@[i].mixer is Linear ==> kv[i] is None
            }
    }

    /// The norm before the mixer of layer `il` emits q8_1 rows.
    pub open spec fn fuses_in(&self, il: int) -> bool {
        !self.no_fuse && self.layers@[il].mixer.in_fast()
    }

    /// The norm before the dense block of layer `il` emits q8_1 rows.
    pub open spec fn fuses_ffn(&self, il: int) -> bool {
        match self.layers@[il].ffn {
            Ffn::Dense { ffn_gate, ffn_up, ffn_down } => !self.no_fuse && !self.cfg.is_m3()
                && ffn_gate.q8_1_fast && ffn_up.q8_1_fast,
            Ffn::Moe => false,
        }
    }

    /// The dense block of layer `il` should take q8_1 rows and cannot.
    pub open spec fn ffn_blocked(&self, il: int) -> bool {
        match self.layers@[il].ffn {
            Ffn::Dense { ffn_gate, ffn_up, ffn_down } => self.fuses_ffn(il)
                && !ffn::ffn_pre_possible(
                ffn_gate,
                ffn_up,
                self.layers@[il].kernels.dual_gate_up,
            ),
            Ffn::Moe => false,
        }
    }

    /// The attention of layer `il` is refused.
    pub open spec fn mixer_blocked(&self, il: int) -> bool {
        self.layers@[il].mixer is Full && self.naive
    }

    /// What stands in the way of planning layer `il`.
    pub open spec fn obstacle(&self, il: int) -> Option<PlanError> {
        if self.mixer_blocked(il) {
            Some(PlanError::NaiveAttention)
        } else if self.ffn_blocked(il) {
            Some(PlanError::GateUpNotSeparable)
        } else {
            None
        }
    }

    /// What stands in the way of planning the first `n` layers: the first obstacle.
    pub open spec fn first_obstacle(&self, n: nat) -> Option<PlanError>
        decreases n,
    {
        if n == 0 {
            None
        } else {
            match self.first_obstacle((n - 1) as nat) {
                Some(e) => Some(e),
                None => self.obstacle(n - 1),
            }
        }
    }

    /// How many of the first `n` layers stand before the first obstacle.
    pub open spec fn clear_layers(&self, n: nat) -> nat
        decreases n,
    {
        if n == 0 {
            0
        } else if self.first_obstacle((n - 1) as nat) is Some {
            self.clear_layers((n - 1) as nat)
        } else if self.obstacle(n - 1) is Some {
            (n - 1) as nat
        } else {
            n
        }
    }
}

/// The cache after a step: one row more, but for a captured body, which leaves the host's
/// length alone.
pub open spec fn kv_after(mode: Counting, kv: Option<KvMeta>) -> Option<KvMeta> {
    match (mode, kv) {
        (Counting::Captured(_), _) => kv,
        (_, Some(m)) => Some(m.grown()),
        (_, None) => None,
    }
}

/// The mixer of layer `il`, its input normalized and, with `pre`, quantized.
pub open spec fn mixer_ops(
    ctx: StepContext,
    il: int,
    kv: Option<KvMeta>,
    mode: Counting,
    pre: bool,
) -> Seq<Op> {
    let layer = ctx.layers@[il];
    match layer.mixer {
        Mixer::Full(fa) => match mode {
            Counting::Host => attention::full_attn_ops(
                ctx.cfg,
                fa,
                layer.kernels.fused3_qkv,
                0,
                il as usize,
                kv->0,
                pre,
                ctx.prefetch,
                row_io(),
            ),
            Counting::Device => attention::full_attn_counted_ops(
                ctx.cfg,
                fa,
                layer.kernels.fused3_qkv,
                0,
                il as usize,
                kv->0,
                pre,
                None,
                row_io(),
            ),
            Counting::Captured(b) => attention::full_attn_counted_ops(
                ctx.cfg,
                fa,
                layer.kernels.fused3_qkv,
                0,
                il as usize,
                kv->0,
                pre,
                Some(b),
                row_io(),
            ),
        },
        Mixer::Linear(la) => recurrent::linear_attn_ops(
            0,
            il as usize,
            la,
            layer.kernels,
            ctx.cfg.ssm->0,
            ctx.cfg.n_embd,
            pre,
            mode is Captured,
            row_io(),
        ),
    }
}

/// The mixer of layer `il` up to where the naive attention is refused.
pub open spec fn refused_mixer_ops(
    ctx: StepContext,
    il: int,
    kv: Option<KvMeta>,
    mode: Counting,
    pre: bool,
) -> Seq<Op> {
    let layer = ctx.layers@[il];
    let fused3 = layer.kernels.fused3_qkv;
    let fa = layer.mixer->Full_0;
    if mode is Host {
        attention::refused_attn_ops(
            ctx.cfg,
            fa,
            fused3,
            0,
            il as usize,
            kv->0,
            pre,
            ctx.prefetch,
            row_io(),
        )
    } else {
        attention::refused_counted_ops(ctx.cfg, fa, fused3, 0, il as usize, pre, row_io())
    }
}

/// The norm before the mixer.
pub open spec fn norm_in_ops(ctx: StepContext, il: int) -> Seq<Op> {
    let w = Weight::Layer(il as usize, Slot::AttnNorm);
    let dim = ctx.cfg.n_embd;
    if ctx.fuses_in(il) {
        seq![Op::RmsNormQ8 { src: Buf::X, w, q: Buf::Hq, d: Buf::Hd, dim, rows: 1 }]
    } else {
        seq![Op::RmsNorm { src: Buf::X, w, dst: Buf::H, dim, rows: 1 }]
    }
}

/// Norm and mixer.
pub open spec fn attn_in_ops(
    ctx: StepContext,
    il: int,
    kv: Option<KvMeta>,
    mode: Counting,
) -> Seq<Op> {
    norm_in_ops(ctx, il) + mixer_ops(ctx, il, kv, mode, ctx.fuses_in(il))
}

/// Norm and mixer up to where the naive attention is refused.
pub open spec fn refused_attn_in_ops(
    ctx: StepContext,
    il: int,
    kv: Option<KvMeta>,
    mode: Counting,
) -> Seq<Op> {
    norm_in_ops(ctx, il) + refused_mixer_ops(ctx, il, kv, mode, ctx.fuses_in(il))
}

/// Residual sum, norm and feed-forward block.
pub open spec fn residual_ops(ctx: StepContext, il: int) -> Seq<Op> {
    let w = Weight::Layer(il as usize, Slot::PostAttnNorm);
    let dim = ctx.cfg.n_embd;
    let layer = ctx.layers@[il];
    let plain = seq![
        Op::AddRmsNorm {
            a: Buf::X,
            b: Buf::Mixed,
            w,
            sum: Buf::X1,
            dst: Buf::Z,
            dim,
            rows: 1,
        },
    ];
    match layer.ffn {
        Ffn::Dense { ffn_gate, ffn_up, ffn_down } => if ctx.fuses_ffn(il) {
            seq![
                Op::AddRmsNormQ8 {
                    a: Buf::X,
                    b: Buf::Mixed,
                    w,
                    sum: Buf::X1,
                    q: Buf::Zq,
                    d: Buf::Zd,
                    dim,
                    rows: 1,
                },
            ] + ffn::ffn_pre_ops(
                il as usize,
                ffn_gate,
                ffn_up,
                ffn_down,
                layer.kernels.dual_gate_up,
            )
        } else {
            plain + ffn::ffn_ops(
                il as usize,
                ffn_gate,
                ffn_up,
                ffn_down,
                layer.kernels.dual_gate_up,
                dim,
                ctx.cfg.is_m3(),
            )
        },
        Ffn::Moe => plain + seq![
            Op::MoeFfn { layer: il as usize, src: Buf::Z, dst: Buf::FfnOut, rows: 1 },
        ],
    }
}

/// Residual sum, norm and feed-forward block up to where a projection is missing.
pub open spec fn refused_residual_ops(ctx: StepContext, il: int) -> Seq<Op> {
    let gate = ctx.layers@[il].ffn->ffn_gate;
    let up = ctx.layers@[il].ffn->ffn_up;
    seq![
        Op::AddRmsNormQ8 {
            a: Buf::X,
            b: Buf::Mixed,
            w: Weight::Layer(il as usize, Slot::PostAttnNorm),
            sum: Buf::X1,
            q: Buf::Zq,
            d: Buf::Zd,
            dim: ctx.cfg.n_embd,
            rows: 1,
        },
    ] + ffn::ffn_raw_ops(il as usize, false, gate.separable, up.separable)
}

fn push_mixer(
    ops: &mut Vec<Op>,
    ctx: &StepContext,
    il: usize,
    kv: &mut Option<KvMeta>,
    mode: Counting,
    pre: bool,
) -> (r: Result<(), PlanError>)
    requires
        ctx.wf(),
        il < ctx.layers@.len(),
        ctx.layers@[il as int].mixer is Full ==> *old(kv) is Some && old(kv)->0.has_room(),
        ctx.layers@[il as int].mixer is Linear ==> *old(kv) is None,
    ensures
        r is Ok <==> !ctx.mixer_blocked(il as int),
        r is Ok ==> final(ops)@ == old(ops)@ + mixer_ops(*ctx, il as int, *old(kv), mode, pre),
        r matches Err(e) ==> e == PlanError::NaiveAttention && final(ops)@ == old(ops)@
            + refused_mixer_ops(*ctx, il as int, *old(kv), mode, pre),
        *final(kv) == kv_after(mode, *old(kv)),
{
    let layer = ctx.layers[il];
    match layer.mixer {
        Mixer::Full(fa) => {
            let mut meta: KvMeta = kv.unwrap();
            let ghost m0 = meta;
            let r = match mode {
                Counting::Host => full_attn_decode_pre(
                    ops,
                    &ctx.cfg,
                    &fa,
                    &layer.kernels,
                    0,
                    il,
                    &mut meta,
                    pre,
                    ctx.prefetch,
                    ctx.naive,
                    standard_row(),
                ),
                Counting::Device => full_attn_decode_dc_inner(
                    ops,
                    &ctx.cfg,
                    &fa,
                    &layer.kernels,
                    0,
                    il,
                    &mut meta,
                    pre,
                    None,
                    ctx.naive,
                    standard_row(),
                ),
                Counting::Captured(b) => full_attn_decode_dc_inner(
                    ops,
                    &ctx.cfg,
                    &fa,
                    &layer.kernels,
                    0,
                    il,
                    &mut meta,
                    pre,
                    Some(b),
                    ctx.naive,
                    standard_row(),
                ),
            };
            *kv = Some(meta);
            r
        },
        Mixer::Linear(la) => {
            let ssm = ctx.cfg.ssm.unwrap();
            let persistent = match mode {
                Counting::Captured(_) => true,
                _ => false,
            };
            linear_attn_decode_inner(
                ops,
                0,
                il,
                &la,
                &layer.kernels,
                &ssm,
                ctx.cfg.n_embd,
                pre,
                persistent,
                standard_row(),
            );
            Ok(())
        },
    }
}

/// Plans norm and mixer of layer `il` on `X`; the result lands in `Mixed`. The cache takes the row
/// even where the attention is refused.
pub fn attn_in_norm_mixer(
    ops: &mut Vec<Op>,
    ctx: &StepContext,
    il: usize,
    kv: &mut Option<KvMeta>,
    mode: Counting,
) -> (r: Result<(), PlanError>)
    requires
        ctx.wf(),
        il < ctx.layers@.len(),
        ctx.layers@[il as int].mixer is Full ==> *old(kv) is Some && old(kv)->0.has_room(),
        ctx.layers@[il as int].mixer is Linear ==> *old(kv) is None,
    ensures
        r is Ok <==> !ctx.mixer_blocked(il as int),
        r is Ok ==> final(ops)@ == old(ops)@ + attn_in_ops(*ctx, il as int, *old(kv), mode),
        r matches Err(e) ==> e == PlanError::NaiveAttention && final(ops)@ == old(ops)@
            + refused_attn_in_ops(*ctx, il as int, *old(kv), mode),
        *final(kv) == kv_after(mode, *old(kv)),
{
    let w = Weight::Layer(il, Slot::AttnNorm);
    let dim = ctx.cfg.n_embd;
    let fuse = !ctx.no_fuse && mixer_in_q8_1_fast(&ctx.layers[il].mixer);
    if fuse {
        ops.push(Op::RmsNormQ8 { src: Buf::X, w, q: Buf::Hq, d: Buf::Hd, dim, rows: 1 });
    } else {
        ops.push(Op::RmsNorm { src: Buf::X, w, dst: Buf::H, dim, rows: 1 });
    }
    assert(ops@ =~= old(ops)@ + norm_in_ops(*ctx, il as int));
    let r = push_mixer(ops, ctx, il, kv, mode, fuse);
    proof {
        if r is Ok {
            assert(ops@ =~= old(ops)@ + attn_in_ops(*ctx, il as int, *old(kv), mode));
        } else {
            assert(ops@ =~= old(ops)@ + refused_attn_in_ops(*ctx, il as int, *old(kv), mode));
        }
    }
    r
}

/// Plans residual sum, norm and feed-forward block of layer `il` on `X` and `Mixed`; the sum
/// lands in `X1`, the block's result in `FfnOut`.
pub fn residual_norm_ffn(ops: &mut Vec<Op>, ctx: &StepContext, il: usize) -> (r: Result<
    (),
    PlanError,
>)
    requires
        il < ctx.layers@.len(),
    ensures
        r is Err <==> ctx.ffn_blocked(il as int),
        r is Ok ==> final(ops)@ == old(ops)@ + residual_ops(*ctx, il as int),
        r matches Err(e) ==> e == PlanError::GateUpNotSeparable && final(ops)@ == old(ops)@
            + refused_residual_ops(*ctx, il as int),
{
    let w = Weight::Layer(il, Slot::PostAttnNorm);
    let dim = ctx.cfg.n_embd;
    let layer = ctx.layers[il];
    let m3 = ctx.cfg.m3_moe_layer_freq.is_some();
    match layer.ffn {
        Ffn::Dense { ffn_gate, ffn_up, ffn_down } => {
            if !ctx.no_fuse && !m3 && ffn_gate.q8_1_fast && ffn_up.q8_1_fast {
                ops.push(
                    Op::AddRmsNormQ8 {
                        a: Buf::X,
                        b: Buf::Mixed,
                        w,
                        sum: Buf::X1,
                        q: Buf::Zq,
                        d: Buf::Zd,
                        dim,
                        rows: 1,
                    },
                );
                let r = ffn_swiglu_decode_pre(
                    ops,
                    il,
                    &ffn_gate,
                    &ffn_up,
                    &ffn_down,
                    &layer.kernels,
                );
                proof {
                    if r is Ok {
                        assert(ops@ =~= old(ops)@ + residual_ops(*ctx, il as int));
                    } else {
                        assert(ops@ =~= old(ops)@ + refused_residual_ops(*ctx, il as int));
                    }
                }
                return r;
            }
            ops.push(
                Op::AddRmsNorm {
                    a: Buf::X,
                    b: Buf::Mixed,
                    w,
                    sum: Buf::X1,
                    dst: Buf::Z,
                    dim,
                    rows: 1,
                },
            );
            ffn_swiglu_decode(
                ops,
                il,
                &ffn_gate,
                &ffn_up,
                &ffn_down,
                &layer.kernels,
                dim,
                m3,
            );
        },
        Ffn::Moe => {
            ops.push(
                Op::AddRmsNorm {
                    a: Buf::X,
                    b: Buf::Mixed,
                    w,
                    sum: Buf::X1,
                    dst: Buf::Z,
                    dim,
                    rows: 1,
                },
            );
            ops.push(Op::MoeFfn { layer: il, src: Buf::Z, dst: Buf::FfnOut, rows: 1 });
        },
    }
    assert(ops@ =~= old(ops)@ + residual_ops(*ctx, il as int));
    Ok(())
}

/// A sequence's caches as the host tracks them.
pub struct StepCache {
    /// Position of the next token.
    pub pos: usize,
    pub kv: Vec<Option<KvMeta>>,
}

/// Keeps the output of layer `il` in the buffer of every place among the first `m` of `aux` that
/// asks for it.
pub open spec fn keep_ops(aux: Seq<usize>, il: int, m: nat) -> Seq<Op>
    decreases m,
{
    if m == 0 {
        Seq::empty()
    } else {
        keep_ops(aux, il, (m - 1) as nat) + (if aux[m - 1] == il {
            seq![Op::Clone { src: Buf::X, dst: Buf::Aux((m - 1) as usize) }]
        } else {
            Seq::empty()
        })
    }
}

/// The residual sum that closes a layer.
pub open spec fn close_ops(n_embd: usize) -> Seq<Op> {
    seq![Op::Add { a: Buf::X1, b: Buf::FfnOut, dst: Buf::X, n: n_embd }]
}

/// The first `n` layers, each closed by its own residual sum. `Aux(j)` keeps the output of layer
/// `aux[j]`.
pub open spec fn chain_ops(
    ctx: StepContext,
    kv: Seq<Option<KvMeta>>,
    mode: Counting,
    aux: Seq<usize>,
    n: nat,
) -> Seq<Op>
    decreases n,
{
    if n == 0 {
        Seq::empty()
    } else {
        let il = n - 1;
        chain_ops(ctx, kv, mode, aux, il as nat) + (attn_in_ops(ctx, il, kv[il], mode)
            + residual_ops(ctx, il) + close_ops(ctx.cfg.n_embd) + keep_ops(aux, il, aux.len()))
    }
}

/// Layer `il` up to its obstacle.
pub open spec fn chain_stop_ops(
    ctx: StepContext,
    kv: Option<KvMeta>,
    mode: Counting,
    il: int,
) -> Seq<Op> {
    if ctx.mixer_blocked(il) {
        refused_attn_in_ops(ctx, il, kv, mode)
    } else {
        attn_in_ops(ctx, il, kv, mode) + refused_residual_ops(ctx, il)
    }
}

/// Opens layer `il` of the fused form and runs its mixer. The residual sum that closes the layer
/// before is folded into this layer's norm where the mixer takes q8_1 rows.
pub open spec fn open_ops(ctx: StepContext, kv: Option<KvMeta>, il: int) -> Seq<Op> {
    if il > 0 && ctx.fuses_in(il) {
        seq![
            Op::AddRmsNormQ8 {
                a: Buf::X1,
                b: Buf::FfnOut,
                w: Weight::Layer(il as usize, Slot::AttnNorm),
                sum: Buf::X,
                q: Buf::Hq,
                d: Buf::Hd,
                dim: ctx.cfg.n_embd,
                rows: 1,
            },
        ] + mixer_ops(ctx, il, kv, Counting::Host, true)
    } else if il > 0 {
        close_ops(ctx.cfg.n_embd) + attn_in_ops(ctx, il, kv, Counting::Host)
    } else {
        attn_in_ops(ctx, il, kv, Counting::Host)
    }
}

/// Opens layer `il` of the fused form and runs its mixer up to where the naive attention is
/// refused.
pub open spec fn refused_open_ops(ctx: StepContext, kv: Option<KvMeta>, il: int) -> Seq<Op> {
    if il > 0 && ctx.fuses_in(il) {
        seq![
            Op::AddRmsNormQ8 {
                a: Buf::X1,
                b: Buf::FfnOut,
                w: Weight::Layer(il as usize, Slot::AttnNorm),
                sum: Buf::X,
                q: Buf::Hq,
                d: Buf::Hd,
                dim: ctx.cfg.n_embd,
                rows: 1,
            },
        ] + refused_mixer_ops(ctx, il, kv, Counting::Host, true)
    } else if il > 0 {
        close_ops(ctx.cfg.n_embd) + refused_attn_in_ops(ctx, il, kv, Counting::Host)
    } else {
        refused_attn_in_ops(ctx, il, kv, Counting::Host)
    }
}

/// Layer `il` of the fused form up to its obstacle.
pub open spec fn fused_stop_ops(ctx: StepContext, kv: Option<KvMeta>, il: int) -> Seq<Op> {
    if ctx.mixer_blocked(il) {
        refused_open_ops(ctx, kv, il)
    } else {
        open_ops(ctx, kv, il) + refused_residual_ops(ctx, il)
    }
}

/// The first `n` layers of the fused form. The last one is not closed yet.
pub open spec fn fused_ops(ctx: StepContext, kv: Seq<Option<KvMeta>>, n: nat) -> Seq<Op>
    decreases n,
{
    if n == 0 {
        Seq::empty()
    } else {
        let il = n - 1;
        fused_ops(ctx, kv, il as nat) + (open_ops(ctx, kv[il], il) + residual_ops(ctx, il))
    }
}

/// Position and embedding of a token that the host knows.
pub open spec fn host_input_ops(pos: usize, token: u32, n_embd: usize) -> Seq<Op> {
    seq![
        Op::Alloc { dst: Buf::Pos, rows: 1, dim: 1 },
        Op::SetPos { row: 0, pos },
        Op::Alloc { dst: Buf::X, rows: 1, dim: n_embd },
        Op::EmbedHost { row: 0, token, dim: n_embd },
    ]
}

pub open spec fn out_norm_ops(n_embd: usize) -> Seq<Op> {
    seq![
        Op::RmsNorm {
            src: Buf::X,
            w: Weight::Model(Slot::OutputNorm),
            dst: Buf::Hn,
            dim: n_embd,
            rows: 1,
        },
    ]
}

pub open spec fn lm_head_ops() -> Seq<Op> {
    seq![
        Op::Matmul { w: Weight::Model(Slot::Output), src: Buf::Hn, dst: Buf::Logits, rows: 1 },
    ]
}

/// The step that also keeps the trunk's hidden state, before or after the output norm.
pub open spec fn step_h_ops(
    ctx: StepContext,
    kv: Seq<Option<KvMeta>>,
    pos: usize,
    token: u32,
    hpost: bool,
) -> Seq<Op> {
    let n = ctx.layers@.len();
    let dim = ctx.cfg.n_embd;
    host_input_ops(pos, token, dim) + fused_ops(ctx, kv, n) + (if n > 0 {
        close_ops(dim)
    } else {
        Seq::empty()
    }) + out_norm_ops(dim) + (seq![
        Op::Clone {
            src: if hpost {
                Buf::Hn
            } else {
                Buf::X
            },
            dst: Buf::HSeed,
        },
    ] + lm_head_ops())
}

/// The step that also keeps the outputs of the layers in `aux`, in that order.
pub open spec fn step_aux_ops(
    ctx: StepContext,
    kv: Seq<Option<KvMeta>>,
    pos: usize,
    token: u32,
    aux: Seq<usize>,
) -> Seq<Op> {
    let n = ctx.layers@.len();
    let dim = ctx.cfg.n_embd;
    host_input_ops(pos, token, dim) + chain_ops(ctx, kv, Counting::Host, aux, n)
        + out_norm_ops(dim) + lm_head_ops()
}

/// The step with token, position and lengths on the device.
pub open spec fn step_counted_ops(
    ctx: StepContext,
    kv: Seq<Option<KvMeta>>,
    mode: Counting,
    n_vocab: usize,
) -> Seq<Op> {
    let n = ctx.layers@.len();
    let dim = ctx.cfg.n_embd;
    seq![Op::EmbedDevice { dim }] + chain_ops(ctx, kv, mode, Seq::empty(), n) + out_norm_ops(dim)
        + (lm_head_ops() + seq![Op::Argmax { src: Buf::Logits, n: n_vocab }, Op::IncPos])
}

/// What a step with the hidden state plans before it is refused.
pub open spec fn refused_h_ops(
    ctx: StepContext,
    kv: Seq<Option<KvMeta>>,
    pos: usize,
    token: u32,
) -> Seq<Op> {
    let il = ctx.clear_layers(ctx.layers@.len());
    host_input_ops(pos, token, ctx.cfg.n_embd) + (fused_ops(ctx, kv, il) + fused_stop_ops(
        ctx,
        kv[il as int],
        il as int,
    ))
}

/// What a chain of layers plans before it is refused.
pub open spec fn refused_chain_ops(
    ctx: StepContext,
    kv: Seq<Option<KvMeta>>,
    mode: Counting,
    aux: Seq<usize>,
) -> Seq<Op> {
    let il = ctx.clear_layers(ctx.layers@.len());
    chain_ops(ctx, kv, mode, aux, il) + chain_stop_ops(ctx, kv[il as int], mode, il as int)
}

/// The caches after a refused step: those of the layers up to the obstacle took the row.
pub open spec fn kv_refused(
    ctx: StepContext,
    mode: Counting,
    kv: Seq<Option<KvMeta>>,
) -> Seq<Option<KvMeta>> {
    Seq::new(
        kv.len(),
        |j: int|
            if j <= ctx.clear_layers(ctx.layers@.len()) {
                kv_after(mode, kv[j])
            } else {
                kv[j]
            },
    )
}

/// The caches after a step.
pub open spec fn all_kv_after(mode: Counting, kv: Seq<Option<KvMeta>>) -> Seq<Option<KvMeta>> {
    kv.map_values(|m: Option<KvMeta>| kv_after(mode, m))
}

fn push_keep(ops: &mut Vec<Op>, aux: &[usize], il: usize)
    ensures
        final(ops)@ == old(ops)@ + keep_ops(aux@, il as int, aux@.len()),
{
    let mut j: usize = 0;
    assert(ops@ =~= old(ops)@ + keep_ops(aux@, il as int, 0));
    while j < aux.len()
        invariant
            j <= aux@.len(),
            ops@ == old(ops)@ + keep_ops(aux@, il as int, j as nat),
        decreases aux.len() - j,
    {
        if aux[j] == il {
            ops.push(Op::Clone { src: Buf::X, dst: Buf::Aux(j) });
        }
        assert(ops@ =~= old(ops)@ + keep_ops(aux@, il as int, (j + 1) as nat));
        j += 1;
    }
}

fn push_layer(
    ops: &mut Vec<Op>,
    ctx: &StepContext,
    il: usize,
    kv: &mut Option<KvMeta>,
    mode: Counting,
) -> (r: Result<(), PlanError>)
    requires
        ctx.wf(),
        il < ctx.layers@.len(),
        ctx.layers@[il as int].mixer is Full ==> *old(kv) is Some && old(kv)->0.has_room(),
        ctx.layers@[il as int].mixer is Linear ==> *old(kv) is None,
    ensures
        r is Ok <==> ctx.obstacle(il as int) is None,
        r is Ok ==> final(ops)@ == old(ops)@ + (attn_in_ops(*ctx, il as int, *old(kv), mode)
            + residual_ops(*ctx, il as int)),
        r matches Err(e) ==> ctx.obstacle(il as int) == Some(e) && final(ops)@ == old(ops)@
            + chain_stop_ops(*ctx, *old(kv), mode, il as int),
        *final(kv) == kv_after(mode, *old(kv)),
{
    match attn_in_norm_mixer(ops, ctx, il, kv, mode) {
        Ok(_) => {},
        Err(e) => {
            return Err(e);
        },
    }
    let ghost mixed = attn_in_ops(*ctx, il as int, *old(kv), mode);
    let r = residual_norm_ffn(ops, ctx, il);
    proof {
        if r is Ok {
            assert(ops@ =~= old(ops)@ + (mixed + residual_ops(*ctx, il as int)));
        } else {
            assert(ops@ =~= old(ops)@ + (mixed + refused_residual_ops(*ctx, il as int)));
        }
    }
    r
}

fn push_chain(
    ops: &mut Vec<Op>,
    ctx: &StepContext,
    cache: &mut StepCache,
    mode: Counting,
    aux: &[usize],
) -> (r: Result<(), PlanError>)
    requires
        ctx.wf(),
        ctx.kv_ready(old(cache).kv@),
    ensures
        final(cache).pos == old(cache).pos,
        r is Ok <==> ctx.first_obstacle(ctx.layers@.len()) is None,
        r matches Err(e) ==> ctx.first_obstacle(ctx.layers@.len()) == Some(e),
        r is Ok ==> final(ops)@ == old(ops)@ + chain_ops(
            *ctx,
            old(cache).kv@,
            mode,
            aux@,
            ctx.layers@.len(),
        ) && final(cache).kv@ == all_kv_after(mode, old(cache).kv@),
        r is Err ==> final(ops)@ == old(ops)@ + refused_chain_ops(
            *ctx,
            old(cache).kv@,
            mode,
            aux@,
        ) && final(cache).kv@ == kv_refused(*ctx, mode, old(cache).kv@),
{
    let n = ctx.layers.len();
    let mut il: usize = 0;
    let ghost kv0 = cache.kv@;
    assert(ops@ =~= old(ops)@ + chain_ops(*ctx, kv0, mode, aux@, 0));
    while il < n
        invariant
            n == ctx.layers@.len(),
            il <= n,
            ctx.wf(),
            ctx.kv_ready(kv0),
            kv0 == old(cache).kv@,
            cache.pos == old(cache).pos,
            cache.kv@.len() == n,
            forall|j: int|
                0 <= j < il ==> #[trigger] cache.kv@[j] == kv_after(mode, kv0[j]),
            forall|j: int| il <= j < n ==> #[trigger] cache.kv@[j] == kv0[j],
            ctx.first_obstacle(il as nat) is None,
            ops@ == old(ops)@ + chain_ops(*ctx, kv0, mode, aux@, il as nat),
        decreases n - il,
    {
        let mut meta: Option<KvMeta> = cache.kv[il];
        assert(cache.kv@[il as int] == kv0[il as int]);
        assert(ctx.layers@[il as int] == ctx.layers@[il as int]);
        let r = push_layer(ops, ctx, il, &mut meta, mode);
        cache.kv.set(il, meta);
        match r {
            Ok(_) => {},
            Err(e) => {
                proof {
                    lemma_obstacle_sticks(*ctx, (il + 1) as nat, n as nat);
                    assert(ops@ =~= old(ops)@ + refused_chain_ops(*ctx, kv0, mode, aux@));
                    assert(cache.kv@ =~= kv_refused(*ctx, mode, kv0));
                }
                return Err(e);
            },
        }
        ops.push(Op::Add { a: Buf::X1, b: Buf::FfnOut, dst: Buf::X, n: ctx.cfg.n_embd });
        push_keep(ops, aux, il);
        assert(ops@ =~= old(ops)@ + chain_ops(*ctx, kv0, mode, aux@, (il + 1) as nat));
        il += 1;
    }
    assert(cache.kv@ =~= all_kv_after(mode, kv0));
    Ok(())
}

/// Once a layer cannot be planned, no more layers help.
proof fn lemma_obstacle_sticks(ctx: StepContext, a: nat, b: nat)
    requires
        a <= b,
        ctx.first_obstacle(a) is Some,
    ensures
        ctx.first_obstacle(b) == ctx.first_obstacle(a),
        ctx.clear_layers(b) == ctx.clear_layers(a),
    decreases b,
{
    if a < b {
        lemma_obstacle_sticks(ctx, a, (b - 1) as nat);
    }
}

fn push_open(
    ops: &mut Vec<Op>,
    ctx: &StepContext,
    il: usize,
    kv: &mut Option<KvMeta>,
) -> (r: Result<(), PlanError>)
    requires
        ctx.wf(),
        il < ctx.layers@.len(),
        ctx.layers@[il as int].mixer is Full ==> *old(kv) is Some && old(kv)->0.has_room(),
        ctx.layers@[il as int].mixer is Linear ==> *old(kv) is None,
    ensures
        r is Ok <==> !ctx.mixer_blocked(il as int),
        r is Ok ==> final(ops)@ == old(ops)@ + open_ops(*ctx, *old(kv), il as int),
        r matches Err(e) ==> e == PlanError::NaiveAttention && final(ops)@ == old(ops)@
            + refused_open_ops(*ctx, *old(kv), il as int),
        *final(kv) == kv_after(Counting::Host, *old(kv)),
{
    let fuse = !ctx.no_fuse && mixer_in_q8_1_fast(&ctx.layers[il].mixer);
    let r = if il > 0 && fuse {
        ops.push(
            Op::AddRmsNormQ8 {
                a: Buf::X1,
                b: Buf::FfnOut,
                w: Weight::Layer(il, Slot::AttnNorm),
                sum: Buf::X,
                q: Buf::Hq,
                d: Buf::Hd,
                dim: ctx.cfg.n_embd,
                rows: 1,
            },
        );
        push_mixer(ops, ctx, il, kv, Counting::Host, true)
    } else {
        if il > 0 {
            ops.push(Op::Add { a: Buf::X1, b: Buf::FfnOut, dst: Buf::X, n: ctx.cfg.n_embd });
        }
        attn_in_norm_mixer(ops, ctx, il, kv, Counting::Host)
    };
    proof {
        if r is Ok {
            assert(ops@ =~= old(ops)@ + open_ops(*ctx, *old(kv), il as int));
        } else {
            assert(ops@ =~= old(ops)@ + refused_open_ops(*ctx, *old(kv), il as int));
        }
    }
    r
}

fn push_fused(ops: &mut Vec<Op>, ctx: &StepContext, cache: &mut StepCache) -> (r: Result<
    (),
    PlanError,
>)
    requires
        ctx.wf(),
        ctx.kv_ready(old(cache).kv@),
    ensures
        final(cache).pos == old(cache).pos,
        r is Ok <==> ctx.first_obstacle(ctx.layers@.len()) is None,
        r matches Err(e) ==> ctx.first_obstacle(ctx.layers@.len()) == Some(e),
        r is Ok ==> final(ops)@ == old(ops)@ + fused_ops(
            *ctx,
            old(cache).kv@,
            ctx.layers@.len(),
        ) && final(cache).kv@ == all_kv_after(Counting::Host, old(cache).kv@),
        r is Err ==> final(ops)@ == old(ops)@ + ({
            let il = ctx.clear_layers(ctx.layers@.len());
            fused_ops(*ctx, old(cache).kv@, il) + fused_stop_ops(
                *ctx,
                old(cache).kv@[il as int],
                il as int,
            )
        }) && final(cache).kv@ == kv_refused(*ctx, Counting::Host, old(cache).kv@),
{
    let n = ctx.layers.len();
    let mut il: usize = 0;
    let ghost kv0 = cache.kv@;
    assert(ops@ =~= old(ops)@ + fused_ops(*ctx, kv0, 0));
    while il < n
        invariant
            n == ctx.layers@.len(),
            il <= n,
            ctx.wf(),
            ctx.kv_ready(kv0),
            kv0 == old(cache).kv@,
            cache.pos == old(cache).pos,
            cache.kv@.len() == n,
            forall|j: int|
                0 <= j < il ==> #[trigger] cache.kv@[j] == kv_after(Counting::Host, kv0[j]),
            forall|j: int| il <= j < n ==> #[trigger] cache.kv@[j] == kv0[j],
            ctx.first_obstacle(il as nat) is None,
            ops@ == old(ops)@ + fused_ops(*ctx, kv0, il as nat),
        decreases n - il,
    {
        let mut meta: Option<KvMeta> = cache.kv[il];
        assert(cache.kv@[il as int] == kv0[il as int]);
        assert(ctx.layers@[il as int] == ctx.layers@[il as int]);
        let r = push_open(ops, ctx, il, &mut meta);
        cache.kv.set(il, meta);
        match r {
            Ok(_) => {},
            Err(e) => {
                proof {
                    lemma_obstacle_sticks(*ctx, (il + 1) as nat, n as nat);
                    assert(ops@ =~= old(ops)@ + (fused_ops(*ctx, kv0, il as nat)
                        + fused_stop_ops(*ctx, kv0[il as int], il as int)));
                    assert(cache.kv@ =~= kv_refused(*ctx, Counting::Host, kv0));
                }
                return Err(e);
            },
        }
        match residual_norm_ffn(ops, ctx, il) {
            Ok(_) => {},
            Err(e) => {
                proof {
                    lemma_obstacle_sticks(*ctx, (il + 1) as nat, n as nat);
                    assert(ops@ =~= old(ops)@ + (fused_ops(*ctx, kv0, il as nat)
                        + fused_stop_ops(*ctx, kv0[il as int], il as int)));
                    assert(cache.kv@ =~= kv_refused(*ctx, Counting::Host, kv0));
                }
                return Err(e);
            },
        }
        assert(ops@ =~= old(ops)@ + fused_ops(*ctx, kv0, (il + 1) as nat));
        il += 1;
    }
    assert(cache.kv@ =~= all_kv_after(Counting::Host, kv0));
    Ok(())
}

fn host_input(pos: usize, token: u32, n_embd: usize) -> (ops: Vec<Op>)
    ensures
        ops@ == host_input_ops(pos, token, n_embd),
{
    let mut ops: Vec<Op> = Vec::new();
    ops.push(Op::Alloc { dst: Buf::Pos, rows: 1, dim: 1 });
    ops.push(Op::SetPos { row: 0, pos });
    ops.push(Op::Alloc { dst: Buf::X, rows: 1, dim: n_embd });
    ops.push(Op::EmbedHost { row: 0, token, dim: n_embd });
    assert(ops@ =~= host_input_ops(pos, token, n_embd));
    ops
}

fn out_norm(n_embd: usize) -> (op: Op)
    ensures
        seq![op] == out_norm_ops(n_embd),
{
    let op = Op::RmsNorm {
        src: Buf::X,
        w: Weight::Model(Slot::OutputNorm),
        dst: Buf::Hn,
        dim: n_embd,
        rows: 1,
    };
    assert(seq![op] =~= out_norm_ops(n_embd));
    op
}

fn lm_head() -> (op: Op)
    ensures
        seq![op] == lm_head_ops(),
{
    let op = Op::Matmul {
        w: Weight::Model(Slot::Output),
        src: Buf::Hn,
        dst: Buf::Logits,
        rows: 1,
    };
    assert(seq![op] =~= lm_head_ops());
    op
}

/// Plans one decode step of `token` that keeps the trunk's hidden state in `HSeed`: the state
/// after the output norm with `hpost`, else the state before it. Logits land in `Logits`. A refused
/// step hands out what it planned until then: the position stays, and the caches it reached count
/// the row.
pub fn decode_step_h(ctx: &StepContext, cache: &mut StepCache, token: u32, hpost: bool) -> (r:
    Result<Vec<Op>, Refused>)
    requires
        ctx.wf(),
        ctx.kv_ready(old(cache).kv@),
        old(cache).pos < usize::MAX,
    ensures
        r is Ok <==> ctx.first_obstacle(ctx.layers@.len()) is None,
        r matches Err(e) ==> {
            &&& ctx.first_obstacle(ctx.layers@.len()) == Some(e.why)
            &&& e.ops@ == refused_h_ops(*ctx, old(cache).kv@, old(cache).pos, token)
            &&& final(cache).pos == old(cache).pos
            &&& final(cache).kv@ == kv_refused(*ctx, Counting::Host, old(cache).kv@)
        },
        r matches Ok(ops) ==> {
            &&& ops@ == step_h_ops(*ctx, old(cache).kv@, old(cache).pos, token, hpost)
            &&& final(cache).pos == old(cache).pos + 1
            &&& final(cache).kv@ == all_kv_after(Counting::Host, old(cache).kv@)
        },
{
    let dim = ctx.cfg.n_embd;
    let mut ops = host_input(cache.pos, token, dim);
    let ghost kv0 = cache.kv@;
    match push_fused(&mut ops, ctx, cache) {
        Ok(_) => {},
        Err(why) => {
            return Err(Refused { why, ops });
        },
    }
    if ctx.layers.len() > 0 {
        ops.push(Op::Add { a: Buf::X1, b: Buf::FfnOut, dst: Buf::X, n: dim });
    }
    ops.push(out_norm(dim));
    ops.push(
        Op::Clone {
            src: if hpost {
                Buf::Hn
            } else {
                Buf::X
            },
            dst: Buf::HSeed,
        },
    );
    ops.push(lm_head());
    cache.pos = cache.pos + 1;
    assert(ops@ =~= step_h_ops(*ctx, kv0, old(cache).pos, token, hpost));
    Ok(ops)
}

/// Plans one decode step of `token` that also keeps the output of layer `aux_layers[j]` in
/// `Aux(j)`, for every `j`.
pub fn decode_step_aux(
    ctx: &StepContext,
    cache: &mut StepCache,
    token: u32,
    aux_layers: &[usize],
) -> (r: Result<Vec<Op>, Refused>)
    requires
        ctx.wf(),
        ctx.kv_ready(old(cache).kv@),
        old(cache).pos < usize::MAX,
    ensures
        r is Ok <==> ctx.first_obstacle(ctx.layers@.len()) is None,
        r matches Err(e) ==> {
            &&& ctx.first_obstacle(ctx.layers@.len()) == Some(e.why)
            &&& e.ops@ == host_input_ops(old(cache).pos, token, ctx.cfg.n_embd)
                + refused_chain_ops(*ctx, old(cache).kv@, Counting::Host, aux_layers@)
            &&& final(cache).pos == old(cache).pos
            &&& final(cache).kv@ == kv_refused(*ctx, Counting::Host, old(cache).kv@)
        },
        r matches Ok(ops) ==> {
            &&& ops@ == step_aux_ops(*ctx, old(cache).kv@, old(cache).pos, token, aux_layers@)
            &&& final(cache).pos == old(cache).pos + 1
            &&& final(cache).kv@ == all_kv_after(Counting::Host, old(cache).kv@)
        },
{
    let dim = ctx.cfg.n_embd;
    let mut ops = host_input(cache.pos, token, dim);
    let ghost kv0 = cache.kv@;
    match push_chain(&mut ops, ctx, cache, Counting::Host, aux_layers) {
        Ok(_) => {},
        Err(why) => {
            return Err(Refused { why, ops });
        },
    }
    ops.push(out_norm(dim));
    ops.push(lm_head());
    cache.pos = cache.pos + 1;
    assert(ops@ =~= step_aux_ops(*ctx, kv0, old(cache).pos, token, aux_layers@));
    Ok(ops)
}

fn counted_step(ctx: &StepContext, cache: &mut StepCache, mode: Counting, n_vocab: usize) -> (r:
    Result<Vec<Op>, Refused>)
    requires
        ctx.wf(),
        ctx.kv_ready(old(cache).kv@),
    ensures
        final(cache).pos == old(cache).pos,
        r is Ok <==> ctx.first_obstacle(ctx.layers@.len()) is None,
        r matches Err(e) ==> {
            &&& ctx.first_obstacle(ctx.layers@.len()) == Some(e.why)
            &&& e.ops@ == seq![Op::EmbedDevice { dim: ctx.cfg.n_embd }] + refused_chain_ops(
                *ctx,
                old(cache).kv@,
                mode,
                Seq::empty(),
            )
            &&& final(cache).kv@ == kv_refused(*ctx, mode, old(cache).kv@)
        },
        r matches Ok(ops) ==> ops@ == step_counted_ops(*ctx, old(cache).kv@, mode, n_vocab)
            && final(cache).kv@ == all_kv_after(mode, old(cache).kv@),
{
    let dim = ctx.cfg.n_embd;
    let mut ops: Vec<Op> = Vec::new();
    ops.push(Op::EmbedDevice { dim });
    assert(ops@ =~= seq![Op::EmbedDevice { dim }]);
    let none: Vec<usize> = Vec::new();
    let ghost kv0 = cache.kv@;
    match push_chain(&mut ops, ctx, cache, mode, none.as_slice()) {
        Ok(_) => {},
        Err(why) => {
            return Err(Refused { why, ops });
        },
    }
    assert(none@ =~= Seq::<usize>::empty());
    ops.push(out_norm(dim));
    ops.push(lm_head());
    ops.push(Op::Argmax { src: Buf::Logits, n: n_vocab });
    ops.push(Op::IncPos);
    assert(ops@ =~= step_counted_ops(*ctx, kv0, mode, n_vocab));
    Ok(ops)
}

/// Plans one decode step with token, position and cache lengths on the device; the next token
/// replaces the token. The host's mirrors advance.
pub fn decode_step_dc(ctx: &StepContext, cache: &mut StepCache, n_vocab: usize) -> (r: Result<
    Vec<Op>,
    Refused,
>)
    requires
        ctx.wf(),
        ctx.kv_ready(old(cache).kv@),
        old(cache).pos < usize::MAX,
    ensures
        r is Ok <==> ctx.first_obstacle(ctx.layers@.len()) is None,
        r matches Err(e) ==> {
            &&& ctx.first_obstacle(ctx.layers@.len()) == Some(e.why)
            &&& e.ops@ == seq![Op::EmbedDevice { dim: ctx.cfg.n_embd }] + refused_chain_ops(
                *ctx,
                old(cache).kv@,
                Counting::Device,
                Seq::empty(),
            )
            &&& final(cache).pos == old(cache).pos
            &&& final(cache).kv@ == kv_refused(*ctx, Counting::Device, old(cache).kv@)
        },
        r matches Ok(ops) ==> {
            &&& ops@ == step_counted_ops(*ctx, old(cache).kv@, Counting::Device, n_vocab)
            &&& final(cache).pos == old(cache).pos + 1
            &&& final(cache).kv@ == all_kv_after(Counting::Device, old(cache).kv@)
        },
{
    match counted_step(ctx, cache, Counting::Device, n_vocab) {
        Ok(ops) => {
            cache.pos = cache.pos + 1;
            Ok(ops)
        },
        Err(e) => Err(e),
    }
}

/// Plans the body of one decode step for capture: the attention grids are those of
/// `bucket_max` rows, and the host's mirrors stay as they are.
pub fn decode_step_dc_cap(
    ctx: &StepContext,
    cache: &mut StepCache,
    n_vocab: usize,
    bucket_max: usize,
) -> (r: Result<Vec<Op>, Refused>)
    requires
        ctx.wf(),
        ctx.kv_ready(old(cache).kv@),
    ensures
        r is Ok <==> ctx.first_obstacle(ctx.layers@.len()) is None,
        r matches Err(e) ==> {
            &&& ctx.first_obstacle(ctx.layers@.len()) == Some(e.why)
            &&& e.ops@ == seq![Op::EmbedDevice { dim: ctx.cfg.n_embd }] + refused_chain_ops(
                *ctx,
                old(cache).kv@,
                Counting::Captured(bucket_max),
                Seq::empty(),
            )
        },
        r matches Ok(ops) ==> {
            &&& ops@ == step_counted_ops(
                *ctx,
                old(cache).kv@,
                Counting::Captured(bucket_max),
                n_vocab,
            )
        },
        final(cache).kv@ == old(cache).kv@,
        final(cache).pos == old(cache).pos,
{
    let ghost kv0 = cache.kv@;
    let r = counted_step(ctx, cache, Counting::Captured(bucket_max), n_vocab);
    assert(all_kv_after(Counting::Captured(bucket_max), kv0) =~= kv0);
    assert(kv_refused(*ctx, Counting::Captured(bucket_max), kv0) =~= kv0);
    r
}

/// Which step a model takes.
#[derive(Clone, Copy, Debug, PartialEq, Eq, Structural)]
pub enum StepRoute {
    Gemma4E4b,
    Gemma4,
    Trunk,
}

/// The step of a model: the E4B family, other Gemma-4 models, or the hybrid trunk.
pub fn step_route(e4b: bool, gemma4: bool) -> (r: StepRoute)
    ensures
        r is Gemma4E4b <==> e4b,
        r is Gemma4 <==> gemma4 && !e4b,
{
    if e4b {
        StepRoute::Gemma4E4b
    } else if gemma4 {
        StepRoute::Gemma4
    } else {
        StepRoute::Trunk
    }
}

} // verus!
