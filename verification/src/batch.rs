//! One decode step of several independent sequences at once.
//!
//! Every projection reads its weights once for all rows; only the KV caches and the recurrent
//! states are visited sequence by sequence. Up to eight rows, the batched kernels treat each row
//! as a one-row launch would, so a sequence's result does not depend on its neighbours.

use vstd::prelude::*;

use crate::attention;
use crate::attention::{KvMeta, RowBufs};
use crate::config::{Ffn, FullAttnLayer, LinearAttnLayer, Mixer, mixer_in_q8_1_fast};
use crate::decode_plan::{StepCache, StepContext};
use crate::launch;
use crate::launch::{Buf, Op, Slot, Weight};
use crate::recurrent;
use crate::recurrent::linear_attn_decode_inner;

verus! {

/// Most sequences of one batch. More rows would take kernels that round differently.
pub const MAX_BATCH: usize = 8;

/// Why a batch is refused.
#[derive(Clone, Copy, Debug, PartialEq, Eq, Structural)]
pub enum BatchRefusal {
    /// No token, or not one cache per token.
    LengthMismatch,
    /// More than `MAX_BATCH` sequences.
    TooManySequences,
    /// Not the hybrid trunk.
    Gemma4,
    /// The clamped activation of M3 models has no batched kernel.
    M3Dense,
}

/// The first reason to refuse a batch.
pub open spec fn refusal(
    n_tokens: usize,
    n_caches: usize,
    gemma4: bool,
    m3: bool,
    dense: bool,
) -> Option<BatchRefusal> {
    if n_tokens < 1 || n_tokens != n_caches {
        Some(BatchRefusal::LengthMismatch)
    } else if n_tokens > MAX_BATCH {
        Some(BatchRefusal::TooManySequences)
    } else if gemma4 {
        Some(BatchRefusal::Gemma4)
    } else if m3 && dense {
        Some(BatchRefusal::M3Dense)
    } else {
        None
    }
}

/// Whether some layer has a dense feed-forward block.
pub open spec fn has_dense(ctx: StepContext) -> bool {
    exists|i: int| 0 <= i < ctx.layers@.len() && (#[trigger] ctx.layers@[i]).ffn is Dense
}

/// Checks that a batch of `n_tokens` tokens and `n_caches` caches can be planned. `gemma4` tells
/// whether the model is of that family.
pub fn check_batch(ctx: &StepContext, n_tokens: usize, n_caches: usize, gemma4: bool) -> (r: Result<
    (),
    BatchRefusal,
>)
    ensures
        r is Ok <==> refusal(n_tokens, n_caches, gemma4, ctx.cfg.is_m3(), has_dense(*ctx)) is None,
        r matches Err(e) ==> refusal(
            n_tokens,
            n_caches,
            gemma4,
            ctx.cfg.is_m3(),
            has_dense(*ctx),
        ) == Some(e),
{
    if n_tokens < 1 || n_tokens != n_caches {
        return Err(BatchRefusal::LengthMismatch);
    }
    if n_tokens > MAX_BATCH {
        return Err(BatchRefusal::TooManySequences);
    }
    if gemma4 {
        return Err(BatchRefusal::Gemma4);
    }
    if ctx.cfg.m3_moe_layer_freq.is_some() {
        let mut i: usize = 0;
        while i < ctx.layers.len()
            invariant
                i <= ctx.layers@.len(),
                forall|j: int| 0 <= j < i ==> !((#[trigger] ctx.layers@[j]).ffn is Dense),
                ctx.cfg.is_m3(),
                !gemma4,
                1 <= n_tokens <= MAX_BATCH,
                n_tokens == n_caches,
            decreases ctx.layers.len() - i,
        {
            match ctx.layers[i].ffn {
                Ffn::Dense { .. } => {
                    assert(ctx.layers@[i as int].ffn is Dense);
                    return Err(BatchRefusal::M3Dense);
                },
                Ffn::Moe => {},
            }
            i += 1;
        }
    }
    Ok(())
}

pub open spec fn lw(il: int, slot: Slot) -> Weight {
    Weight::Layer(il as usize, slot)
}

/// Buffers of one sequence's row in the recurrent mixer.
pub open spec fn seq_io() -> RowBufs {
    RowBufs { h: Buf::XnRow, q: Buf::HqRow, d: Buf::HdRow, out: Buf::MixedRow }
}

fn seq_row() -> (r: RowBufs)
    ensures
        r == seq_io(),
{
    RowBufs { h: Buf::XnRow, q: Buf::HqRow, d: Buf::HdRow, out: Buf::MixedRow }
}

/// Positions and embeddings of the first `m` rows.
pub open spec fn input_ops(tokens: Seq<u32>, caches: Seq<StepCache>, dim: usize, m: nat) -> Seq<Op>
    decreases m,
{
    if m == 0 {
        Seq::empty()
    } else {
        let i = (m - 1) as usize;
        input_ops(tokens, caches, dim, (m - 1) as nat) + seq![
            Op::SetPos { row: i, pos: caches[m - 1].pos },
            Op::EmbedHost { row: i, token: tokens[m - 1], dim },
        ]
    }
}

/// Norm and quantization of all rows.
pub open spec fn rows_in_ops(ctx: StepContext, il: int, b: usize) -> Seq<Op> {
    let dim = ctx.cfg.n_embd;
    seq![
        Op::RmsNorm { src: Buf::X, w: lw(il, Slot::AttnNorm), dst: Buf::Xn, dim, rows: b },
        Op::Quantize { src: Buf::Xn, q: Buf::Hq, d: Buf::Hd, rows: b, dim },
    ]
}

/// Attention inputs of all rows.
pub open spec fn rows_head_ops(ctx: StepContext, il: int, b: usize) -> Seq<Op> {
    let c = ctx.cfg;
    let (hd, nh, nkv, dims) = (c.head_dim_k, c.n_head, c.n_head_kv, c.rope_dim_count);
    seq![
        Op::MatmulPre {
            w: lw(il, Slot::Wq),
            q: Buf::Hq,
            d: Buf::Hd,
            src: Buf::Xn,
            dst: Buf::Qf,
            rows: b,
        },
        Op::MatmulPre {
            w: lw(il, Slot::Wk),
            q: Buf::Hq,
            d: Buf::Hd,
            src: Buf::Xn,
            dst: Buf::K,
            rows: b,
        },
        Op::MatmulPre {
            w: lw(il, Slot::Wv),
            q: Buf::Hq,
            d: Buf::Hd,
            src: Buf::Xn,
            dst: Buf::V,
            rows: b,
        },
    ] + (if c.attn_out_gate {
        seq![
            Op::QGateSplit {
                src: Buf::Qf,
                q: Buf::Q,
                gate: Buf::Gate,
                head_dim: hd,
                n_head: nh,
                rows: b,
            },
        ]
    } else {
        Seq::empty()
    }) + seq![
        Op::RmsNorm {
            src: if c.attn_out_gate {
                Buf::Q
            } else {
                Buf::Qf
            },
            w: lw(il, Slot::QNorm),
            dst: Buf::Qn,
            dim: hd,
            rows: (b * nh) as usize,
        },
        Op::RmsNorm {
            src: Buf::K,
            w: lw(il, Slot::KNorm),
            dst: Buf::Kn,
            dim: hd,
            rows: (b * nkv) as usize,
        },
        Op::Rope { buf: Buf::Qn, head_dim: hd, dims, heads: nh, rows: b },
        Op::Rope { buf: Buf::Kn, head_dim: hd, dims, heads: nkv, rows: b },
        Op::Alloc { dst: Buf::Attn, rows: b, dim: c.q_dim() as usize },
    ]
}

/// Append and attend of the row of sequence `i`.
pub open spec fn seq_attend_ops(il: int, i: usize, kv: KvMeta, q_dim: usize) -> Seq<Op> {
    let layer = il as usize;
    seq![
        Op::AppendKvRow { seq: i, layer, k: Buf::Kn, v: Buf::V, row: i, at: kv.len },
        Op::TakeRow { src: Buf::Qn, row: i, dst: Buf::QRow, dim: q_dim },
        Op::FaDecode {
            seq: i,
            layer,
            q: Buf::QRow,
            dst: Buf::AttnRow,
            t_kv: (kv.len + 1) as usize,
            k_bytes: ((kv.len + 1) * kv.k_tok_bytes) as usize,
            v_bytes: ((kv.len + 1) * kv.v_tok_bytes) as usize,
        },
        Op::PutRow { src: Buf::AttnRow, dst: Buf::Attn, row: i, dim: q_dim },
    ]
}

/// Append and attend of the first `m` sequences.
pub open spec fn attend_ops(
    il: int,
    caches: Seq<StepCache>,
    q_dim: usize,
    m: nat,
) -> Seq<Op>
    decreases m,
{
    if m == 0 {
        Seq::empty()
    } else {
        attend_ops(il, caches, q_dim, (m - 1) as nat) + seq_attend_ops(
            il,
            (m - 1) as usize,
            caches[m - 1].kv@[il]->0,
            q_dim,
        )
    }
}

/// Output gate and output projection of all rows.
pub open spec fn rows_out_ops(ctx: StepContext, il: int, b: usize) -> Seq<Op> {
    let n = (b * ctx.cfg.q_dim()) as usize;
    if ctx.cfg.attn_out_gate {
        seq![
            Op::Sigmoid { src: Buf::Gate, dst: Buf::GateSig, n },
            Op::Mul { a: Buf::Attn, b: Buf::GateSig, dst: Buf::AttnGated, n },
            Op::Matmul { w: lw(il, Slot::Wo), src: Buf::AttnGated, dst: Buf::Mixed, rows: b },
        ]
    } else {
        seq![Op::Matmul { w: lw(il, Slot::Wo), src: Buf::Attn, dst: Buf::Mixed, rows: b }]
    }
}

/// The recurrent mixer of sequence `i`, on copies of its rows.
pub open spec fn seq_recur_ops(
    ctx: StepContext,
    la: LinearAttnLayer,
    il: int,
    i: usize,
) -> Seq<Op> {
    let dim = ctx.cfg.n_embd;
    seq![
        Op::TakeRow { src: Buf::Xn, row: i, dst: Buf::XnRow, dim },
        Op::TakeRow { src: Buf::Hq, row: i, dst: Buf::HqRow, dim },
        Op::TakeRow { src: Buf::Hd, row: i, dst: Buf::HdRow, dim },
    ] + recurrent::linear_attn_ops(
        i,
        il as usize,
        la,
        ctx.layers@[il].kernels,
        ctx.cfg.ssm->0,
        dim,
        ctx.layers@[il].mixer.in_fast(),
        false,
        seq_io(),
    ) + seq![Op::PutRow { src: Buf::MixedRow, dst: Buf::Mixed, row: i, dim }]
}

/// The recurrent mixer of the first `m` sequences.
pub open spec fn recur_ops(ctx: StepContext, la: LinearAttnLayer, il: int, m: nat) -> Seq<Op>
    decreases m,
{
    if m == 0 {
        Seq::empty()
    } else {
        recur_ops(ctx, la, il, (m - 1) as nat) + seq_recur_ops(ctx, la, il, (m - 1) as usize)
    }
}

/// The mixer of layer `il` for all rows.
pub open spec fn rows_mixer_ops(
    ctx: StepContext,
    caches: Seq<StepCache>,
    il: int,
    b: usize,
) -> Seq<Op> {
    match ctx.layers@[il].mixer {
        Mixer::Full(fa) => rows_head_ops(ctx, il, b) + attend_ops(
            il,
            caches,
            ctx.cfg.q_dim() as usize,
            b as nat,
        ) + rows_out_ops(ctx, il, b),
        Mixer::Linear(la) => seq![
            Op::Alloc { dst: Buf::Mixed, rows: b, dim: ctx.cfg.n_embd },
        ] + recur_ops(ctx, la, il, b as nat),
    }
}

/// The dense block on the rows `Z`.
pub open spec fn rows_dense_ops(il: int, b: usize, n_ff: usize, dim: usize) -> Seq<Op> {
    seq![
        Op::Quantize { src: Buf::Z, q: Buf::Zq, d: Buf::Zd, rows: b, dim },
        Op::MatmulPre {
            w: lw(il, Slot::FfnGate),
            q: Buf::Zq,
            d: Buf::Zd,
            src: Buf::Z,
            dst: Buf::FfnGate,
            rows: b,
        },
        Op::MatmulPre {
            w: lw(il, Slot::FfnUp),
            q: Buf::Zq,
            d: Buf::Zd,
            src: Buf::Z,
            dst: Buf::FfnUp,
            rows: b,
        },
        Op::FfnAct {
            gate: Buf::FfnGate,
            up: Buf::FfnUp,
            dst: Buf::Act,
            n: (b * n_ff) as usize,
            m3: false,
        },
        Op::Quantize { src: Buf::Act, q: Buf::ActQ, d: Buf::ActD, rows: b, dim: n_ff },
        Op::MatmulPre {
            w: lw(il, Slot::FfnDown),
            q: Buf::ActQ,
            d: Buf::ActD,
            src: Buf::Act,
            dst: Buf::FfnOut,
            rows: b,
        },
    ]
}

/// Residual sum, norm, feed-forward block and closing sum of all rows.
pub open spec fn rows_ffn_ops(ctx: StepContext, il: int, b: usize) -> Seq<Op> {
    let dim = ctx.cfg.n_embd;
    seq![
        Op::AddRmsNorm {
            a: Buf::X,
            b: Buf::Mixed,
            w: lw(il, Slot::PostAttnNorm),
            sum: Buf::X1,
            dst: Buf::Z,
            dim,
            rows: b,
        },
    ] + (match ctx.layers@[il].ffn {
        Ffn::Dense { ffn_gate, ffn_up, ffn_down } => rows_dense_ops(il, b, ffn_gate.out_f, dim),
        Ffn::Moe => seq![
            Op::MoeFfn { layer: il as usize, src: Buf::Z, dst: Buf::FfnOut, rows: b },
        ],
    }) + seq![
        Op::Add { a: Buf::X1, b: Buf::FfnOut, dst: Buf::X, n: (b * dim) as usize },
    ]
}

/// The first `n` layers for all rows.
pub open spec fn layers_ops(
    ctx: StepContext,
    caches: Seq<StepCache>,
    b: usize,
    n: nat,
) -> Seq<Op>
    decreases n,
{
    if n == 0 {
        Seq::empty()
    } else {
        let il = n - 1;
        layers_ops(ctx, caches, b, il as nat) + (rows_in_ops(ctx, il, b) + rows_mixer_ops(
            ctx,
            caches,
            il,
            b,
        ) + rows_ffn_ops(ctx, il, b))
    }
}

/// Positions and embeddings of all rows.
pub open spec fn start_ops(ctx: StepContext, tokens: Seq<u32>, caches: Seq<StepCache>) -> Seq<Op> {
    let b = tokens.len() as usize;
    let dim = ctx.cfg.n_embd;
    seq![
        Op::Alloc { dst: Buf::Pos, rows: b, dim: 1 },
        Op::Alloc { dst: Buf::X, rows: b, dim },
    ] + input_ops(tokens, caches, dim, tokens.len())
}

/// Output norm and logits of all rows.
pub open spec fn head_ops(ctx: StepContext, b: usize) -> Seq<Op> {
    seq![
        Op::RmsNorm {
            src: Buf::X,
            w: Weight::Model(Slot::OutputNorm),
            dst: Buf::Hn,
            dim: ctx.cfg.n_embd,
            rows: b,
        },
        Op::Matmul { w: Weight::Model(Slot::Output), src: Buf::Hn, dst: Buf::Logits, rows: b },
    ]
}

/// The whole batched step.
pub open spec fn batch_ops(ctx: StepContext, tokens: Seq<u32>, caches: Seq<StepCache>) -> Seq<Op> {
    start_ops(ctx, tokens, caches) + layers_ops(
        ctx,
        caches,
        tokens.len() as usize,
        ctx.layers@.len(),
    ) + head_ops(ctx, tokens.len() as usize)
}

/// Buffer lengths for `b` rows fit.
pub open spec fn rows_fit(ctx: StepContext, b: int) -> bool {
    &&& ctx.cfg.fits_rows(b)
    &&& forall|i: int|
        0 <= i < ctx.layers@.len() ==> (#[trigger] ctx.layers@[i].ffn matches Ffn::Dense {
            ffn_gate,
            ..
        } ==> b * ffn_gate.out_f <= usize::MAX)
}

fn push_rows_head(ops: &mut Vec<Op>, ctx: &StepContext, il: usize, b: usize)
    requires
        ctx.cfg.fits_rows(b as int),
    ensures
        final(ops)@ == old(ops)@ + rows_head_ops(*ctx, il as int, b),
{
    let (hd, nh, nkv, dims) = (
        ctx.cfg.head_dim_k,
        ctx.cfg.n_head,
        ctx.cfg.n_head_kv,
        ctx.cfg.rope_dim_count,
    );
    let (q, d, src) = (Buf::Hq, Buf::Hd, Buf::Xn);
    ops.push(
        Op::MatmulPre { w: Weight::Layer(il, Slot::Wq), q, d, src, dst: Buf::Qf, rows: b },
    );
    ops.push(Op::MatmulPre { w: Weight::Layer(il, Slot::Wk), q, d, src, dst: Buf::K, rows: b });
    ops.push(Op::MatmulPre { w: Weight::Layer(il, Slot::Wv), q, d, src, dst: Buf::V, rows: b });
    if ctx.cfg.attn_out_gate {
        ops.push(
            Op::QGateSplit {
                src: Buf::Qf,
                q: Buf::Q,
                gate: Buf::Gate,
                head_dim: hd,
                n_head: nh,
                rows: b,
            },
        );
    }
    ops.push(
        Op::RmsNorm {
            src: if ctx.cfg.attn_out_gate {
                Buf::Q
            } else {
                Buf::Qf
            },
            w: Weight::Layer(il, Slot::QNorm),
            dst: Buf::Qn,
            dim: hd,
            rows: b * nh,
        },
    );
    ops.push(
        Op::RmsNorm {
            src: Buf::K,
            w: Weight::Layer(il, Slot::KNorm),
            dst: Buf::Kn,
            dim: hd,
            rows: b * nkv,
        },
    );
    ops.push(Op::Rope { buf: Buf::Qn, head_dim: hd, dims, heads: nh, rows: b });
    ops.push(Op::Rope { buf: Buf::Kn, head_dim: hd, dims, heads: nkv, rows: b });
    ops.push(Op::Alloc { dst: Buf::Attn, rows: b, dim: nh * hd });
    assert(ops@ =~= old(ops)@ + rows_head_ops(*ctx, il as int, b));
}

fn push_rows_out(ops: &mut Vec<Op>, ctx: &StepContext, il: usize, b: usize)
    requires
        ctx.cfg.fits_rows(b as int),
    ensures
        final(ops)@ == old(ops)@ + rows_out_ops(*ctx, il as int, b),
{
    let q_dim: usize = ctx.cfg.n_head * ctx.cfg.head_dim_k;
    let n: usize = b * q_dim;
    let w = Weight::Layer(il, Slot::Wo);
    if ctx.cfg.attn_out_gate {
        ops.push(Op::Sigmoid { src: Buf::Gate, dst: Buf::GateSig, n });
        ops.push(Op::Mul { a: Buf::Attn, b: Buf::GateSig, dst: Buf::AttnGated, n });
        ops.push(Op::Matmul { w, src: Buf::AttnGated, dst: Buf::Mixed, rows: b });
    } else {
        ops.push(Op::Matmul { w, src: Buf::Attn, dst: Buf::Mixed, rows: b });
    }
    assert(ops@ =~= old(ops)@ + rows_out_ops(*ctx, il as int, b));
}

fn push_rows_ffn(ops: &mut Vec<Op>, ctx: &StepContext, il: usize, b: usize)
    requires
        il < ctx.layers@.len(),
        rows_fit(*ctx, b as int),
    ensures
        final(ops)@ == old(ops)@ + rows_ffn_ops(*ctx, il as int, b),
{
    let dim = ctx.cfg.n_embd;
    ops.push(
        Op::AddRmsNorm {
            a: Buf::X,
            b: Buf::Mixed,
            w: Weight::Layer(il, Slot::PostAttnNorm),
            sum: Buf::X1,
            dst: Buf::Z,
            dim,
            rows: b,
        },
    );
    match ctx.layers[il].ffn {
        Ffn::Dense { ffn_gate, ffn_up: _, ffn_down: _ } => {
            let n_ff = ffn_gate.out_f;
            assert(ctx.layers@[il as int].ffn is Dense);
            ops.push(Op::Quantize { src: Buf::Z, q: Buf::Zq, d: Buf::Zd, rows: b, dim });
            ops.push(
                Op::MatmulPre {
                    w: Weight::Layer(il, Slot::FfnGate),
                    q: Buf::Zq,
                    d: Buf::Zd,
                    src: Buf::Z,
                    dst: Buf::FfnGate,
                    rows: b,
                },
            );
            ops.push(
                Op::MatmulPre {
                    w: Weight::Layer(il, Slot::FfnUp),
                    q: Buf::Zq,
                    d: Buf::Zd,
                    src: Buf::Z,
                    dst: Buf::FfnUp,
                    rows: b,
                },
            );
            ops.push(
                Op::FfnAct {
                    gate: Buf::FfnGate,
                    up: Buf::FfnUp,
                    dst: Buf::Act,
                    n: b * n_ff,
                    m3: false,
                },
            );
            ops.push(
                Op::Quantize { src: Buf::Act, q: Buf::ActQ, d: Buf::ActD, rows: b, dim: n_ff },
            );
            ops.push(
                Op::MatmulPre {
                    w: Weight::Layer(il, Slot::FfnDown),
                    q: Buf::ActQ,
                    d: Buf::ActD,
                    src: Buf::Act,
                    dst: Buf::FfnOut,
                    rows: b,
                },
            );
        },
        Ffn::Moe => {
            ops.push(Op::MoeFfn { layer: il, src: Buf::Z, dst: Buf::FfnOut, rows: b });
        },
    }
    ops.push(Op::Add { a: Buf::X1, b: Buf::FfnOut, dst: Buf::X, n: b * dim });
    assert(ops@ =~= old(ops)@ + rows_ffn_ops(*ctx, il as int, b));
}

/// The caches at layer `il` and before have advanced for the first `m` sequences, those before
/// `il` for all.
spec fn caches_at(c0: Seq<StepCache>, c: Seq<StepCache>, n: int, il: int, m: int) -> bool {
    &&& c.len() == c0.len()
    &&& forall|i: int|
        #![trigger c[i]]
        0 <= i < c.len() ==> {
            &&& c[i].pos == c0[i].pos
            &&& c[i].kv@.len() == n
            &&& forall|j: int|
                #![trigger c[i].kv@[j]]
                0 <= j < n ==> c[i].kv@[j] == (if j < il || (j == il && i < m) {
                    crate::decode_plan::kv_after(
                        crate::decode_plan::Counting::Host,
                        c0[i].kv@[j],
                    )
                } else {
                    c0[i].kv@[j]
                })
        }
}

fn push_attend(
    ops: &mut Vec<Op>,
    ctx: &StepContext,
    caches: &mut Vec<StepCache>,
    il: usize,
    q_dim: usize,
    Ghost(c0): Ghost<Seq<StepCache>>,
)
    requires
        il < ctx.layers@.len(),
        ctx.layers@[il as int].mixer is Full,
        forall|i: int| 0 <= i < c0.len() ==> ctx.kv_ready(#[trigger] c0[i].kv@),
        caches_at(c0, old(caches)@, ctx.layers@.len() as int, il as int, 0),
    ensures
        final(ops)@ == old(ops)@ + attend_ops(il as int, c0, q_dim, c0.len()),
        caches_at(c0, final(caches)@, ctx.layers@.len() as int, il as int, c0.len() as int),
{
    let n = ctx.layers.len();
    let b = caches.len();
    let mut i: usize = 0;
    assert(ops@ =~= old(ops)@ + attend_ops(il as int, c0, q_dim, 0));
    while i < b
        invariant
            i <= b,
            b == c0.len(),
            n == ctx.layers@.len(),
            il < n,
            ctx.layers@[il as int].mixer is Full,
            forall|j: int| 0 <= j < c0.len() ==> ctx.kv_ready(#[trigger] c0[j].kv@),
            caches_at(c0, caches@, n as int, il as int, i as int),
            ops@ == old(ops)@ + attend_ops(il as int, c0, q_dim, i as nat),
        decreases b - i,
    {
        let ghost cc = caches@;
        assert(cc[i as int].kv@[il as int] == c0[i as int].kv@[il as int]);
        assert(ctx.kv_ready(c0[i as int].kv@));
        assert(ctx.layers@[il as int].mixer is Full);
        let mut meta: KvMeta = caches[i].kv[il].unwrap();
        let at = meta.len;
        let t_kv: usize = at + 1;
        ops.push(Op::AppendKvRow { seq: i, layer: il, k: Buf::Kn, v: Buf::V, row: i, at });
        ops.push(Op::TakeRow { src: Buf::Qn, row: i, dst: Buf::QRow, dim: q_dim });
        ops.push(
            Op::FaDecode {
                seq: i,
                layer: il,
                q: Buf::QRow,
                dst: Buf::AttnRow,
                t_kv,
                k_bytes: t_kv * meta.k_tok_bytes,
                v_bytes: t_kv * meta.v_tok_bytes,
            },
        );
        ops.push(Op::PutRow { src: Buf::AttnRow, dst: Buf::Attn, row: i, dim: q_dim });
        meta.len = t_kv;
        let c = &mut caches[i];
        c.kv.set(il, Some(meta));
        assert(ops@ =~= old(ops)@ + attend_ops(il as int, c0, q_dim, (i + 1) as nat));
        i += 1;
    }
}

fn push_recur(
    ops: &mut Vec<Op>,
    ctx: &StepContext,
    la: &LinearAttnLayer,
    il: usize,
    b: usize,
)
    requires
        il < ctx.layers@.len(),
        ctx.layers@[il as int].mixer == Mixer::Linear(*la),
        ctx.cfg.ssm is Some && ctx.cfg.ssm->0.fits(),
    ensures
        final(ops)@ == old(ops)@ + recur_ops(*ctx, *la, il as int, b as nat),
{
    let dim = ctx.cfg.n_embd;
    let ssm = ctx.cfg.ssm.unwrap();
    let fast = mixer_in_q8_1_fast(&ctx.layers[il].mixer);
    let kernels = ctx.layers[il].kernels;
    let mut i: usize = 0;
    assert(ops@ =~= old(ops)@ + recur_ops(*ctx, *la, il as int, 0));
    while i < b
        invariant
            i <= b,
            il < ctx.layers@.len(),
            dim == ctx.cfg.n_embd,
            ctx.cfg.ssm == Some(ssm),
            ssm.fits(),
            fast == ctx.layers@[il as int].mixer.in_fast(),
            kernels == ctx.layers@[il as int].kernels,
            ops@ == old(ops)@ + recur_ops(*ctx, *la, il as int, i as nat),
        decreases b - i,
    {
        let ghost p0 = ops@;
        ops.push(Op::TakeRow { src: Buf::Xn, row: i, dst: Buf::XnRow, dim });
        ops.push(Op::TakeRow { src: Buf::Hq, row: i, dst: Buf::HqRow, dim });
        ops.push(Op::TakeRow { src: Buf::Hd, row: i, dst: Buf::HdRow, dim });
        linear_attn_decode_inner(ops, i, il, la, &kernels, &ssm, dim, fast, false, seq_row());
        ops.push(Op::PutRow { src: Buf::MixedRow, dst: Buf::Mixed, row: i, dim });
        assert(ops@ =~= p0 + seq_recur_ops(*ctx, *la, il as int, i));
        assert(ops@ =~= old(ops)@ + recur_ops(*ctx, *la, il as int, (i + 1) as nat));
        i += 1;
    }
}

fn push_layer(
    ops: &mut Vec<Op>,
    ctx: &StepContext,
    caches: &mut Vec<StepCache>,
    il: usize,
    Ghost(c0): Ghost<Seq<StepCache>>,
)
    requires
        ctx.wf(),
        il < ctx.layers@.len(),
        c0.len() <= usize::MAX,
        rows_fit(*ctx, c0.len() as int),
        forall|i: int| 0 <= i < c0.len() ==> ctx.kv_ready(#[trigger] c0[i].kv@),
        caches_at(c0, old(caches)@, ctx.layers@.len() as int, il as int, 0),
    ensures
        final(ops)@ == old(ops)@ + (rows_in_ops(*ctx, il as int, c0.len() as usize)
            + rows_mixer_ops(*ctx, c0, il as int, c0.len() as usize) + rows_ffn_ops(
            *ctx,
            il as int,
            c0.len() as usize,
        )),
        caches_at(c0, final(caches)@, ctx.layers@.len() as int, il + 1, 0),
{
    let b = caches.len();
    let dim = ctx.cfg.n_embd;
    let ghost n = ctx.layers@.len() as int;
    ops.push(
        Op::RmsNorm {
            src: Buf::X,
            w: Weight::Layer(il, Slot::AttnNorm),
            dst: Buf::Xn,
            dim,
            rows: b,
        },
    );
    ops.push(Op::Quantize { src: Buf::Xn, q: Buf::Hq, d: Buf::Hd, rows: b, dim });
    let ghost p1 = ops@;
    assert(p1 =~= old(ops)@ + rows_in_ops(*ctx, il as int, b));
    match ctx.layers[il].mixer {
        Mixer::Full(_) => {
            push_rows_head(ops, ctx, il, b);
            let q_dim: usize = ctx.cfg.n_head * ctx.cfg.head_dim_k;
            push_attend(ops, ctx, caches, il, q_dim, Ghost(c0));
            push_rows_out(ops, ctx, il, b);
        },
        Mixer::Linear(la) => {
            ops.push(Op::Alloc { dst: Buf::Mixed, rows: b, dim });
            push_recur(ops, ctx, &la, il, b);
            assert forall|i: int| #![trigger c0[i]] 0 <= i < c0.len() implies c0[i].kv@[il as int]
                is None by {
                assert(ctx.kv_ready(c0[i].kv@));
                assert(ctx.layers@[il as int].mixer is Linear);
            }
        },
    }
    assert(ops@ =~= p1 + rows_mixer_ops(*ctx, c0, il as int, b));
    push_rows_ffn(ops, ctx, il, b);
    assert(ops@ =~= old(ops)@ + (rows_in_ops(*ctx, il as int, b) + rows_mixer_ops(
        *ctx,
        c0,
        il as int,
        b,
    ) + rows_ffn_ops(*ctx, il as int, b)));
}

/// Plans one decode step of several sequences: row `i` of `Logits` belongs to sequence `i`, and
/// every cache advances as by a step of its own.
pub fn decode_step_batch(
    ctx: &StepContext,
    tokens: &[u32],
    caches: &mut Vec<StepCache>,
) -> (ops: Vec<Op>)
    requires
        ctx.wf(),
        refusal(
            tokens@.len() as usize,
            old(caches)@.len() as usize,
            false,
            ctx.cfg.is_m3(),
            has_dense(*ctx),
        ) is None,
        tokens@.len() == old(caches)@.len(),
        rows_fit(*ctx, tokens@.len() as int),
        forall|i: int|
            #![trigger old(caches)@[i]]
            0 <= i < old(caches)@.len() ==> ctx.kv_ready(old(caches)@[i].kv@) && old(
                caches,
            )@[i].pos < usize::MAX,
    ensures
        ops@ == batch_ops(*ctx, tokens@, old(caches)@),
        final(caches)@.len() == old(caches)@.len(),
        forall|i: int|
            #![trigger final(caches)@[i]]
            0 <= i < old(caches)@.len() ==> {
                &&& final(caches)@[i].pos == old(caches)@[i].pos + 1
                &&& final(caches)@[i].kv@ == crate::decode_plan::all_kv_after(
                    crate::decode_plan::Counting::Host,
                    old(caches)@[i].kv@,
                )
            },
{
    let b = tokens.len();
    let dim = ctx.cfg.n_embd;
    let ghost c0 = caches@;
    let n = ctx.layers.len();
    let mut ops: Vec<Op> = Vec::new();
    ops.push(Op::Alloc { dst: Buf::Pos, rows: b, dim: 1 });
    ops.push(Op::Alloc { dst: Buf::X, rows: b, dim });
    let ghost p0 = ops@;
    assert(p0 =~= seq![
        Op::Alloc { dst: Buf::Pos, rows: b, dim: 1 },
        Op::Alloc { dst: Buf::X, rows: b, dim },
    ]);
    let mut i: usize = 0;
    assert(ops@ =~= p0 + input_ops(tokens@, c0, dim, 0));
    while i < b
        invariant
            i <= b,
            b == tokens@.len(),
            caches@ == c0,
            c0.len() == b,
            ops@ == p0 + input_ops(tokens@, c0, dim, i as nat),
        decreases b - i,
    {
        ops.push(Op::SetPos { row: i, pos: caches[i].pos });
        ops.push(Op::EmbedHost { row: i, token: tokens[i], dim });
        assert(ops@ =~= p0 + input_ops(tokens@, c0, dim, (i + 1) as nat));
        i += 1;
    }
    let ghost p1 = ops@;
    let mut il: usize = 0;
    assert(ops@ =~= p1 + layers_ops(*ctx, c0, b, 0));
    assert forall|i: int| 0 <= i < c0.len() implies ctx.kv_ready(#[trigger] c0[i].kv@) by {
        assert(old(caches)@[i] == c0[i]);
    }
    while il < n
        invariant
            il <= n,
            n == ctx.layers@.len(),
            ctx.wf(),
            b == c0.len(),
            rows_fit(*ctx, b as int),
            forall|i: int| 0 <= i < c0.len() ==> ctx.kv_ready(#[trigger] c0[i].kv@),
            caches_at(c0, caches@, n as int, il as int, 0),
            ops@ == p1 + layers_ops(*ctx, c0, b, il as nat),
        decreases n - il,
    {
        push_layer(&mut ops, ctx, caches, il, Ghost(c0));
        assert(ops@ =~= p1 + layers_ops(*ctx, c0, b, (il + 1) as nat));
        il += 1;
    }
    ops.push(
        Op::RmsNorm {
            src: Buf::X,
            w: Weight::Model(Slot::OutputNorm),
            dst: Buf::Hn,
            dim,
            rows: b,
        },
    );
    ops.push(
        Op::Matmul { w: Weight::Model(Slot::Output), src: Buf::Hn, dst: Buf::Logits, rows: b },
    );
    let mut j: usize = 0;
    let ghost c1 = caches@;
    while j < b
        invariant
            j <= b,
            b == c0.len(),
            n == ctx.layers@.len(),
            caches@.len() == b,
            caches_at(c0, c1, n as int, n as int, 0),
            forall|i: int|
                #![trigger caches@[i]]
                0 <= i < b ==> caches@[i].kv@ == c1[i].kv@ && caches@[i].pos == c0[i].pos + (if i
                    < j {
                    1int
                } else {
                    0int
                }),
            forall|i: int| 0 <= i < b ==> (#[trigger] c0[i]).pos < usize::MAX,
        decreases b - j,
    {
        assert(c0[j as int].pos < usize::MAX);
        let c = &mut caches[j];
        c.pos = c.pos + 1;
        j += 1;
    }
    proof {
        assert forall|i: int| #![trigger caches@[i]] 0 <= i < c0.len() implies {
            &&& caches@[i].pos == c0[i].pos + 1
            &&& caches@[i].kv@ == crate::decode_plan::all_kv_after(
                crate::decode_plan::Counting::Host,
                c0[i].kv@,
            )
        } by {
            assert(ctx.kv_ready(c0[i].kv@));
            assert(c1[i].kv@ =~= crate::decode_plan::all_kv_after(
                crate::decode_plan::Counting::Host,
                c0[i].kv@,
            ));
        }
        assert(ops@ =~= batch_ops(*ctx, tokens@, c0));
    }
    ops
}

/// A batch is planned exactly where it has from one sequence up to the most, a cache for each, a
/// model of the hybrid trunk, and no dense block with the clamped activation. What is wrong with
/// the batch itself is said before what is wrong with the model.
pub proof fn law_served_batches(
    n_tokens: usize,
    n_caches: usize,
    gemma4: bool,
    m3: bool,
    dense: bool,
)
    ensures
        refusal(n_tokens, n_caches, gemma4, m3, dense) is None <==> {
            &&& 1 <= n_tokens <= MAX_BATCH
            &&& n_caches == n_tokens
            &&& !gemma4
            &&& !(m3 && dense)
        },
        n_tokens != n_caches ==> refusal(n_tokens, n_caches, gemma4, m3, dense) == Some(
            BatchRefusal::LengthMismatch,
        ),
        n_tokens == n_caches && n_tokens > MAX_BATCH ==> refusal(
            n_tokens,
            n_caches,
            gemma4,
            m3,
            dense,
        ) == Some(BatchRefusal::TooManySequences),
        refusal(n_tokens, n_caches, gemma4, m3, dense) == Some(BatchRefusal::Gemma4) ==> gemma4,
        refusal(n_tokens, n_caches, gemma4, m3, dense) == Some(BatchRefusal::M3Dense) ==> m3
            && dense,
{
}

} // verus!
