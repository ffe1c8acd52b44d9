//! Every launch of a decode step reaches all of its buffers.

use vstd::prelude::*;

use crate::attention;
use crate::attention::{KvMeta, RowBufs};
use crate::config::{Ffn, FullAttnLayer, GpuTensor, LayerKernels, LinearAttnLayer, Mixer, ModelConfig, SsmConfig};
use crate::decode_plan;
use crate::decode_plan::{Counting, StepContext};
use crate::extent::{
    alike, flow, lemma_flow, lemma_flow0, lemma_flow1, lemma_flow2, lemma_flow3, lemma_flow4, next,
    parted, projected, row, Extents, Shapes,
};
use crate::ffn;
use crate::launch::{Buf, Op, Slot, Weight};
use crate::recurrent;

verus! {

/// A projection from `a` elements to `b`, in parts of `p`.
pub open spec fn maps(m: Shapes, w: Weight, a: int, b: int, p: int) -> bool {
    (m.inp)(w) == a && (m.out)(w) == b && (m.part)(w) == p
}

/// The shapes of a full-attention layer: queries of all heads, twice as wide where they carry a
/// gate, keys and values of the shared heads, and norms of one head.
pub open spec fn full_shaped(m: Shapes, c: ModelConfig, il: usize, fa: FullAttnLayer) -> bool {
    let w = |slot: Slot| Weight::Layer(il, slot);
    &&& c.attn_out_gate ==> maps(
        m,
        w(Slot::Wq),
        c.n_embd as int,
        2 * c.q_dim(),
        2 * c.head_dim_k,
    )
    &&& !c.attn_out_gate ==> maps(
        m,
        w(Slot::Wq),
        c.n_embd as int,
        c.q_dim(),
        c.head_dim_k as int,
    )
    &&& maps(m, w(Slot::Wk), c.n_embd as int, c.kv_dim(), c.head_dim_k as int)
    &&& maps(m, w(Slot::Wv), c.n_embd as int, c.kv_dim(), c.head_dim_k as int)
    &&& maps(m, w(Slot::Wo), c.q_dim(), c.n_embd as int, c.n_embd as int)
    &&& (m.vector)(w(Slot::QNorm)) == c.head_dim_k
    &&& (m.vector)(w(Slot::KNorm)) == c.head_dim_k
    &&& (m.fast)(w(Slot::Wq)) == fa.wq.q8_1_fast
    &&& (m.fast)(w(Slot::Wk)) == fa.wk.q8_1_fast
    &&& (m.fast)(w(Slot::Wv)) == fa.wv.q8_1_fast
    &&& (m.query)(il) == c.q_dim()
    &&& (m.cache)(il) == c.kv_dim()
    &&& (m.rope)(c.head_dim_k as nat) == c.rope_dim_count
}

/// The input row of a mixer is there, in the form it comes in.
pub open spec fn row_ready(e: Extents, n_embd: int, pre: bool, io: RowBufs) -> bool {
    &&& io.wf()
    &&& pre ==> alike(e[io.q], row(n_embd as nat)) && alike(e[io.d], row(n_embd as nat))
    &&& !pre ==> alike(e[io.h], row(n_embd as nat))
}

/// The residual rows and the positions have kept their sizes.
pub open spec fn kept(e: Extents, e1: Extents) -> bool {
    &&& e1[Buf::X] == e[Buf::X]
    &&& e1[Buf::X1] == e[Buf::X1]
    &&& e1[Buf::Pos] == e[Buf::Pos]
    &&& e1[Buf::Xn] == e[Buf::Xn]
}

/// A mixer on copies of a row leaves the rows themselves.
pub open spec fn rows_kept(e: Extents, e1: Extents, io: RowBufs) -> bool {
    io.h == Buf::XnRow ==> {
        &&& e1[Buf::Hq] == e[Buf::Hq]
        &&& e1[Buf::Hd] == e[Buf::Hd]
        &&& e1[Buf::Mixed] == e[Buf::Mixed]
    }
}

/// The input projections give all heads of query, key and value.
pub proof fn lemma_qkv_flows(
    m: Shapes,
    e: Extents,
    c: ModelConfig,
    fa: FullAttnLayer,
    fused3: bool,
    il: usize,
    pre: bool,
    io: RowBufs,
) -> (e1: Extents)
    requires
        full_shaped(m, c, il, fa),
        row_ready(e, c.n_embd as int, pre, io),
        pre ==> attention::qkv_fast(fa),
    ensures
        flow(m, e, attention::qkv_ops(il, attention::qkv_fast(fa), pre, fused3, io, c.n_embd))
            == Some(e1),
        e1[Buf::Qf] == projected(m, Weight::Layer(il, Slot::Wq), 1),
        e1[Buf::K] == projected(m, Weight::Layer(il, Slot::Wk), 1),
        e1[Buf::V] == projected(m, Weight::Layer(il, Slot::Wv), 1),
        kept(e, e1),
{
    lemma_flow(m);
    let (wq, wk, wv) = (
        Weight::Layer(il, Slot::Wq),
        Weight::Layer(il, Slot::Wk),
        Weight::Layer(il, Slot::Wv),
    );
    let (q, d) = (io.q, io.d);
    let ops = attention::qkv_ops(il, attention::qkv_fast(fa), pre, fused3, io, c.n_embd);
    if attention::qkv_fast(fa) {
        let quantize = Op::Quantize { src: io.h, q, d, rows: 1, dim: c.n_embd };
        lemma_flow0(m, e);
        lemma_flow1(m, e, quantize);
        let e0 = if pre {
            e
        } else {
            next(m, Some(e), quantize)->0
        };
        lemma_flow1(
            m,
            e0,
            Op::Fused3 {
                w1: wq,
                w2: wk,
                w3: wv,
                q,
                d,
                dst1: Buf::Qf,
                dst2: Buf::K,
                dst3: Buf::V,
            },
        );
        lemma_flow3(
            m,
            e0,
            Op::MatmulPre { w: wq, q, d, src: io.h, dst: Buf::Qf, rows: 1 },
            Op::MatmulPre { w: wk, q, d, src: io.h, dst: Buf::K, rows: 1 },
            Op::MatmulPre { w: wv, q, d, src: io.h, dst: Buf::V, rows: 1 },
        );
    } else {
        lemma_flow3(
            m,
            e,
            Op::Matmul { w: wq, src: io.h, dst: Buf::Qf, rows: 1 },
            Op::Matmul { w: wk, src: io.h, dst: Buf::K, rows: 1 },
            Op::Matmul { w: wv, src: io.h, dst: Buf::V, rows: 1 },
        );
    }
    flow(m, e, ops)->0
}

/// Every head of the query and of the key is normalized and rotated.
proof fn lemma_heads_flow(
    m: Shapes,
    e: Extents,
    c: ModelConfig,
    fa: FullAttnLayer,
    il: usize,
) -> (e1: Extents)
    requires
        full_shaped(m, c, il, fa),
        e[Buf::Qf] == projected(m, Weight::Layer(il, Slot::Wq), 1),
        e[Buf::K] == projected(m, Weight::Layer(il, Slot::Wk), 1),
        e[Buf::Pos].rows == 1,
    ensures
        flow(
            m,
            e,
            attention::norm_rope_ops(
                il,
                c.attn_out_gate,
                c.head_dim_k,
                c.n_head,
                c.n_head_kv,
                c.rope_dim_count,
            ),
        ) == Some(e1),
        alike(e1[Buf::Qn], row(c.q_dim() as nat)),
        alike(e1[Buf::Kn], row(c.kv_dim() as nat)),
        e1[Buf::V] == e[Buf::V],
        c.attn_out_gate ==> alike(e1[Buf::Gate], row(c.q_dim() as nat)),
        kept(e, e1),
{
    lemma_flow(m);
    let (hd, nh, nkv, dims) = (c.head_dim_k, c.n_head, c.n_head_kv, c.rope_dim_count);
    let q = c.q_dim();
    assert(nh * (2 * hd) == 2 * q && hd * nh == q) by (nonlinear_arith)
        requires
            q == nh * hd,
    ;
    assert(nh * hd == q && nkv * hd == c.kv_dim());
    let gated = c.attn_out_gate;
    let split = Op::QGateSplit {
        src: Buf::Qf,
        q: Buf::Q,
        gate: Buf::Gate,
        head_dim: hd,
        n_head: nh,
        rows: 1,
    };
    lemma_flow0(m, e);
    lemma_flow1(m, e, split);
    let e0 = if gated {
        next(m, Some(e), split)->0
    } else {
        e
    };
    let src = if gated {
        Buf::Q
    } else {
        Buf::Qf
    };
    lemma_flow4(
        m,
        e0,
        Op::RmsNorm { src, w: Weight::Layer(il, Slot::QNorm), dst: Buf::Qn, dim: hd, rows: nh },
        Op::RmsNorm {
            src: Buf::K,
            w: Weight::Layer(il, Slot::KNorm),
            dst: Buf::Kn,
            dim: hd,
            rows: nkv,
        },
        Op::Rope { buf: Buf::Qn, head_dim: hd, dims, heads: nh, rows: 1 },
        Op::Rope { buf: Buf::Kn, head_dim: hd, dims, heads: nkv, rows: 1 },
    );
    assert(e0[src] == parted(1, q as nat, hd as nat));
    flow(m, e, attention::norm_rope_ops(il, gated, hd, nh, nkv, dims))->0
}

/// The output gate goes over the whole attention result.
proof fn lemma_attn_out_flows(
    m: Shapes,
    e: Extents,
    c: ModelConfig,
    fa: FullAttnLayer,
    il: usize,
    out: Buf,
) -> (e1: Extents)
    requires
        full_shaped(m, c, il, fa),
        c.q_dim() <= usize::MAX,
        out == Buf::Mixed || out == Buf::MixedRow,
        alike(e[Buf::Attn], row(c.q_dim() as nat)),
        c.attn_out_gate ==> alike(e[Buf::Gate], row(c.q_dim() as nat)),
    ensures
        flow(m, e, attention::attn_out_ops(il, c.attn_out_gate, c.q_dim() as usize, out)) == Some(
            e1,
        ),
        e1[out] == row(c.n_embd as nat),
        kept(e, e1),
{
    lemma_flow(m);
    let n = c.q_dim() as usize;
    let wo = Weight::Layer(il, Slot::Wo);
    lemma_flow3(
        m,
        e,
        Op::Sigmoid { src: Buf::Gate, dst: Buf::GateSig, n },
        Op::Mul { a: Buf::Attn, b: Buf::GateSig, dst: Buf::AttnGated, n },
        Op::Matmul { w: wo, src: Buf::AttnGated, dst: out, rows: 1 },
    );
    lemma_flow1(m, e, Op::Matmul { w: wo, src: Buf::Attn, dst: out, rows: 1 });
    flow(m, e, attention::attn_out_ops(il, c.attn_out_gate, n, out))->0
}

/// Full attention with the length on the host reaches every head, and views the rows that are
/// there.
pub proof fn lemma_full_flows(
    m: Shapes,
    e: Extents,
    c: ModelConfig,
    fa: FullAttnLayer,
    fused3: bool,
    seq: usize,
    il: usize,
    kv: KvMeta,
    pre: bool,
    prefetch: bool,
    io: RowBufs,
) -> (e1: Extents)
    requires
        full_shaped(m, c, il, fa),
        row_ready(e, c.n_embd as int, pre, io),
        e[Buf::Pos].rows == 1,
        pre ==> attention::qkv_fast(fa),
        c.q_dim() <= usize::MAX,
        kv.has_room(),
        (m.kv)(seq, il) == kv,
    ensures
        flow(
            m,
            e,
            attention::full_attn_ops(c, fa, fused3, seq, il, kv, pre, prefetch, io),
        ) == Some(e1),
        e1[io.out] == row(c.n_embd as nat),
        kept(e, e1),
{
    lemma_flow(m);
    let k_bytes = ((kv.len + 1) * kv.k_tok_bytes) as usize;
    let v_bytes = ((kv.len + 1) * kv.v_tok_bytes) as usize;
    lemma_flow0(m, e);
    lemma_flow1(m, e, Op::Prefetch { seq, layer: il, k_bytes, v_bytes });
    assert(flow(m, e, attention::prefetch_ops(seq, il, kv, prefetch)) == Some(e));
    let e2 = lemma_qkv_flows(m, e, c, fa, fused3, il, pre, io);
    let e3 = lemma_heads_flow(m, e2, c, fa, il);
    assert(flow(m, e, attention::attn_head_ops(c, fa, fused3, il, pre, io)) == Some(e3));
    lemma_flow2(
        m,
        e3,
        Op::AppendKv { seq, layer: il, k: Buf::Kn, v: Buf::V, at: kv.len },
        Op::FaDecode {
            seq,
            layer: il,
            q: Buf::Qn,
            dst: Buf::Attn,
            t_kv: (kv.len + 1) as usize,
            k_bytes,
            v_bytes,
        },
    );
    let e4 = flow(m, e3, attention::attend_host_ops(seq, il, kv))->0;
    assert(flow(m, e3, attention::attend_host_ops(seq, il, kv)) == Some(e4));
    lemma_attn_out_flows(m, e4, c, fa, il, io.out)
}

/// Full attention with the length on the device reaches every head, and views either the rows of
/// its bucket or the whole caches.
pub proof fn lemma_counted_flows(
    m: Shapes,
    e: Extents,
    c: ModelConfig,
    fa: FullAttnLayer,
    fused3: bool,
    seq: usize,
    il: usize,
    kv: KvMeta,
    pre: bool,
    bucket: Option<usize>,
    io: RowBufs,
) -> (e1: Extents)
    requires
        full_shaped(m, c, il, fa),
        row_ready(e, c.n_embd as int, pre, io),
        e[Buf::Pos].rows == 1,
        pre ==> attention::qkv_fast(fa),
        c.q_dim() <= usize::MAX,
        kv.has_room(),
        (m.kv)(seq, il) == kv,
    ensures
        flow(
            m,
            e,
            attention::full_attn_counted_ops(c, fa, fused3, seq, il, kv, pre, bucket, io),
        ) == Some(e1),
        e1[io.out] == row(c.n_embd as nat),
        kept(e, e1),
{
    lemma_flow(m);
    let e2 = lemma_qkv_flows(m, e, c, fa, fused3, il, pre, io);
    let e3 = lemma_heads_flow(m, e2, c, fa, il);
    assert(flow(m, e, attention::attn_head_ops(c, fa, fused3, il, pre, io)) == Some(e3));
    let ops = attention::attend_counted_ops(seq, il, kv, bucket);
    lemma_flow3(m, e3, ops[0], ops[1], ops[2]);
    assert(ops =~= seq![ops[0], ops[1], ops[2]]);
    let e4 = flow(m, e3, ops)->0;
    assert(flow(m, e3, ops) == Some(e4));
    lemma_attn_out_flows(m, e4, c, fa, il, io.out)
}

/// The shapes of a recurrent layer.
pub open spec fn linear_shaped(
    m: Shapes,
    s: SsmConfig,
    n_embd: int,
    il: usize,
    la: LinearAttnLayer,
) -> bool {
    let w = |slot: Slot| Weight::Layer(il, slot);
    let heads = s.time_step_rank as int;
    &&& maps(m, w(Slot::Wqkv), n_embd, s.conv_dim(), s.conv_dim())
    &&& maps(m, w(Slot::WqkvGate), n_embd, s.value_dim(), s.state_size as int)
    &&& maps(m, w(Slot::SsmBeta), n_embd, heads, heads)
    &&& maps(m, w(Slot::SsmAlpha), n_embd, heads, heads)
    &&& maps(m, w(Slot::SsmOut), s.value_dim(), n_embd, n_embd)
    &&& (m.inp)(w(Slot::SsmConv1d)) == s.conv_kernel
    &&& (m.out)(w(Slot::SsmConv1d)) == s.conv_dim()
    &&& (m.vector)(w(Slot::SsmDt)) == heads
    &&& (m.vector)(w(Slot::SsmA)) == heads
    &&& (m.vector)(w(Slot::SsmNorm)) == s.state_size
    &&& la.ssm_beta.out_f == heads
    &&& la.ssm_alpha.out_f == heads
    &&& (m.fast)(w(Slot::Wqkv)) == la.wqkv.q8_1_fast
    &&& (m.fast)(w(Slot::WqkvGate)) == la.wqkv_gate.q8_1_fast
    &&& (m.fast)(w(Slot::SsmBeta)) == la.ssm_beta.q8_1_fast
    &&& (m.fast)(w(Slot::SsmAlpha)) == la.ssm_alpha.q8_1_fast
    &&& (m.fast)(w(Slot::SsmOut)) == la.ssm_out.q8_1_fast
}

/// The projections of a recurrent layer have their widths.
spec fn linear_projected(m: Shapes, e: Extents, il: usize) -> bool {
    &&& e[Buf::QkvMixed] == projected(m, Weight::Layer(il, Slot::Wqkv), 1)
    &&& e[Buf::ZGate] == projected(m, Weight::Layer(il, Slot::WqkvGate), 1)
    &&& e[Buf::BetaRaw] == projected(m, Weight::Layer(il, Slot::SsmBeta), 1)
    &&& e[Buf::Alpha] == projected(m, Weight::Layer(il, Slot::SsmAlpha), 1)
}

proof fn lemma_beta_alpha_flows(
    m: Shapes,
    e: Extents,
    s: SsmConfig,
    n_embd: int,
    il: usize,
    la: LinearAttnLayer,
    dual: bool,
    fused2: bool,
    io: RowBufs,
) -> (e1: Extents)
    requires
        linear_shaped(m, s, n_embd, il, la),
        row_ready(e, n_embd, true, io),
        recurrent::inputs_fast(la),
    ensures
        flow(m, e, recurrent::beta_alpha_ops(il, la, dual, fused2, io)) == Some(e1),
        e1[Buf::BetaRaw] == projected(m, Weight::Layer(il, Slot::SsmBeta), 1),
        e1[Buf::Alpha] == projected(m, Weight::Layer(il, Slot::SsmAlpha), 1),
        e1[io.q] == e[io.q],
        e1[io.d] == e[io.d],
        kept(e, e1),
        rows_kept(e, e1, io),
{
    lemma_flow(m);
    let wb = Weight::Layer(il, Slot::SsmBeta);
    let wa = Weight::Layer(il, Slot::SsmAlpha);
    let (q, d) = (io.q, io.d);
    let raw = Op::MatmulRawDual { w1: wb, w2: wa, q, d, dst1: Buf::BetaRaw, dst2: Buf::Alpha };
    lemma_flow1(m, e, raw);
    lemma_flow1(
        m,
        e,
        Op::Fused2 { w1: wb, w2: wa, q, d, dst1: Buf::BetaRaw, dst2: Buf::Alpha },
    );
    lemma_flow2(
        m,
        e,
        Op::MatmulPre { w: wb, q, d, src: io.h, dst: Buf::BetaRaw, rows: 1 },
        Op::MatmulPre { w: wa, q, d, src: io.h, dst: Buf::Alpha, rows: 1 },
    );
    if dual {
        let e0 = next(m, Some(e), raw)->0;
        lemma_flow0(m, e0);
        lemma_flow1(m, e0, Op::ApplyScale { w: wb, buf: Buf::BetaRaw, n: la.ssm_beta.out_f });
        lemma_flow1(m, e0, Op::ApplyScale { w: wa, buf: Buf::Alpha, n: la.ssm_alpha.out_f });
    }
    flow(m, e, recurrent::beta_alpha_ops(il, la, dual, fused2, io))->0
}

proof fn lemma_linear_proj_flows(
    m: Shapes,
    e: Extents,
    s: SsmConfig,
    n_embd: usize,
    il: usize,
    la: LinearAttnLayer,
    kernels: LayerKernels,
    pre: bool,
    io: RowBufs,
) -> (e1: Extents)
    requires
        linear_shaped(m, s, n_embd as int, il, la),
        row_ready(e, n_embd as int, pre, io),
        pre ==> recurrent::inputs_fast(la),
    ensures
        flow(m, e, recurrent::linear_proj_ops(il, la, kernels, n_embd, pre, io)) == Some(e1),
        linear_projected(m, e1, il),
        kept(e, e1),
        rows_kept(e, e1, io),
{
    lemma_flow(m);
    let wm = Weight::Layer(il, Slot::Wqkv);
    let wz = Weight::Layer(il, Slot::WqkvGate);
    let (q, d) = (io.q, io.d);
    if recurrent::inputs_fast(la) {
        let quantize = Op::Quantize { src: io.h, q, d, rows: 1, dim: n_embd };
        lemma_flow0(m, e);
        lemma_flow1(m, e, quantize);
        let e0 = if pre {
            e
        } else {
            next(m, Some(e), quantize)->0
        };
        let e2 = lemma_beta_alpha_flows(
            m,
            e0,
            s,
            n_embd as int,
            il,
            la,
            kernels.dual_beta_alpha,
            kernels.fused2_beta_alpha,
            io,
        );
        lemma_flow1(
            m,
            e2,
            Op::Fused2 { w1: wm, w2: wz, q, d, dst1: Buf::QkvMixed, dst2: Buf::ZGate },
        );
        lemma_flow2(
            m,
            e2,
            Op::MatmulPre { w: wm, q, d, src: io.h, dst: Buf::QkvMixed, rows: 1 },
            Op::MatmulPre { w: wz, q, d, src: io.h, dst: Buf::ZGate, rows: 1 },
        );
    } else {
        let both = Op::Fused2Float {
            w1: wm,
            w2: wz,
            src: io.h,
            dst1: Buf::QkvMixed,
            dst2: Buf::ZGate,
        };
        let first = Op::Matmul { w: wm, src: io.h, dst: Buf::QkvMixed, rows: 1 };
        let second = Op::Matmul { w: wz, src: io.h, dst: Buf::ZGate, rows: 1 };
        lemma_flow1(m, e, both);
        lemma_flow2(m, e, first, second);
        let e0 = if kernels.fused2_qkv_float {
            next(m, Some(e), both)->0
        } else {
            next(m, next(m, Some(e), first), second)->0
        };
        lemma_flow2(
            m,
            e0,
            Op::Matmul {
                w: Weight::Layer(il, Slot::SsmBeta),
                src: io.h,
                dst: Buf::BetaRaw,
                rows: 1,
            },
            Op::Matmul {
                w: Weight::Layer(il, Slot::SsmAlpha),
                src: io.h,
                dst: Buf::Alpha,
                rows: 1,
            },
        );
    }
    flow(m, e, recurrent::linear_proj_ops(il, la, kernels, n_embd, pre, io))->0
}

/// Linear attention reaches every head of its state, and a replayable plan copies all of it back.
pub proof fn lemma_linear_flows(
    m: Shapes,
    e: Extents,
    s: SsmConfig,
    n_embd: usize,
    seq: usize,
    il: usize,
    la: LinearAttnLayer,
    kernels: LayerKernels,
    pre: bool,
    persistent: bool,
    io: RowBufs,
) -> (e1: Extents)
    requires
        linear_shaped(m, s, n_embd as int, il, la),
        s.fits(),
        row_ready(e, n_embd as int, pre, io),
        pre ==> recurrent::inputs_fast(la),
    ensures
        flow(
            m,
            e,
            recurrent::linear_attn_ops(seq, il, la, kernels, s, n_embd, pre, persistent, io),
        ) == Some(e1),
        e1[io.out] == row(n_embd as nat),
        kept(e, e1),
        rows_kept(e, e1, io),
{
    lemma_flow(m);
    let e2 = lemma_linear_proj_flows(m, e, s, n_embd, il, la, kernels, pre, io);
    let (ds, nv, nk) = (s.state_size, s.time_step_rank, s.group_count);
    assert(ds * nk == nk * ds && ds * nv == nv * ds) by (nonlinear_arith);
    let ops = recurrent::scan_ops(seq, il, s, persistent);
    lemma_flow4(m, e2, ops[0], ops[1], ops[2], ops[3]);
    assert(ops =~= seq![ops[0], ops[1], ops[2], ops[3]]);
    let e3 = flow(m, e2, ops)->0;
    assert(flow(m, e2, ops) == Some(e3));
    assert(e3[Buf::O] == parted(1, s.value_dim() as nat, ds as nat));
    let w = Weight::Layer(il, Slot::SsmOut);
    lemma_flow2(
        m,
        e3,
        Op::GatedRmsNormQ8 {
            layer: il,
            src: Buf::O,
            z: Buf::ZGate,
            q: Buf::Gq,
            d: Buf::Gd,
            dim: ds,
            rows: nv,
        },
        Op::MatmulPre { w, q: Buf::Gq, d: Buf::Gd, src: Buf::Gn, dst: io.out, rows: 1 },
    );
    lemma_flow2(
        m,
        e3,
        Op::GatedRmsNorm {
            layer: il,
            src: Buf::O,
            z: Buf::ZGate,
            dst: Buf::Gn,
            dim: ds,
            rows: nv,
        },
        Op::Matmul { w, src: Buf::Gn, dst: io.out, rows: 1 },
    );
    flow(m, e3, recurrent::linear_out_ops(il, la, s, io.out))->0
}

/// The shapes of a dense feed-forward block.
pub open spec fn dense_shaped(
    m: Shapes,
    n_embd: int,
    il: usize,
    gate: GpuTensor,
    up: GpuTensor,
    down: GpuTensor,
) -> bool {
    let w = |slot: Slot| Weight::Layer(il, slot);
    let n_ff = gate.out_f as int;
    &&& maps(m, w(Slot::FfnGate), n_embd, n_ff, n_ff)
    &&& maps(m, w(Slot::FfnUp), n_embd, n_ff, n_ff)
    &&& maps(m, w(Slot::FfnDown), n_ff, n_embd, n_embd)
    &&& (m.fast)(w(Slot::FfnGate)) == gate.q8_1_fast
    &&& (m.fast)(w(Slot::FfnUp)) == up.q8_1_fast
    &&& (m.fast)(w(Slot::FfnDown)) == down.q8_1_fast
}

proof fn lemma_raw_flows(
    m: Shapes,
    e: Extents,
    n_embd: int,
    il: usize,
    gate: GpuTensor,
    up: GpuTensor,
    down: GpuTensor,
    dual: bool,
) -> (e1: Extents)
    requires
        dense_shaped(m, n_embd, il, gate, up, down),
        alike(e[Buf::Zq], row(n_embd as nat)),
        alike(e[Buf::Zd], row(n_embd as nat)),
    ensures
        flow(m, e, ffn::ffn_raw_ops(il, dual, gate.separable, up.separable)) == Some(e1),
        ffn::ffn_pre_possible(gate, up, dual) ==> e1[Buf::FfnGate] == row(gate.out_f as nat)
            && e1[Buf::FfnUp] == row(gate.out_f as nat),
        e1[Buf::Z] == e[Buf::Z],
        e1[Buf::Zq] == e[Buf::Zq],
        e1[Buf::Zd] == e[Buf::Zd],
        kept(e, e1),
{
    lemma_flow(m);
    let (wg, wu) = (ffn::w_gate(il), ffn::w_up(il));
    let (q, d) = (Buf::Zq, Buf::Zd);
    lemma_flow1(
        m,
        e,
        Op::MatmulRawDual { w1: wg, w2: wu, q, d, dst1: Buf::FfnGate, dst2: Buf::FfnUp },
    );
    let g = Op::MatmulRaw { w: wg, q, d, dst: Buf::FfnGate };
    let u = Op::MatmulRaw { w: wu, q, d, dst: Buf::FfnUp };
    lemma_flow0(m, e);
    lemma_flow1(m, e, g);
    let e0 = if gate.separable {
        next(m, Some(e), g)->0
    } else {
        e
    };
    lemma_flow0(m, e0);
    lemma_flow1(m, e0, u);
    flow(m, e, ffn::ffn_raw_ops(il, dual, gate.separable, up.separable))->0
}

/// The pre-quantized block activates all of its hidden elements.
proof fn lemma_ffn_pre_flows(
    m: Shapes,
    e: Extents,
    n_embd: int,
    il: usize,
    gate: GpuTensor,
    up: GpuTensor,
    down: GpuTensor,
    dual: bool,
) -> (e1: Extents)
    requires
        dense_shaped(m, n_embd, il, gate, up, down),
        ffn::ffn_pre_possible(gate, up, dual),
        alike(e[Buf::Zq], row(n_embd as nat)),
        alike(e[Buf::Zd], row(n_embd as nat)),
    ensures
        flow(m, e, ffn::ffn_pre_ops(il, gate, up, down, dual)) == Some(e1),
        e1[Buf::FfnOut] == row(n_embd as nat),
        kept(e, e1),
{
    lemma_flow(m);
    let (wg, wu, wd) = (ffn::w_gate(il), ffn::w_up(il), ffn::w_down(il));
    let n = gate.out_f;
    let e0 = lemma_raw_flows(m, e, n_embd, il, gate, up, down, dual);
    let (g, u) = (Buf::FfnGate, Buf::FfnUp);
    lemma_flow2(
        m,
        e0,
        Op::SiluMulScaledQ8 { gate: g, up: u, wg, wu, q: Buf::ActQ, d: Buf::ActD, n },
        Op::MatmulPre {
            w: wd,
            q: Buf::ActQ,
            d: Buf::ActD,
            src: Buf::FfnGate,
            dst: Buf::FfnOut,
            rows: 1,
        },
    );
    lemma_flow2(
        m,
        e0,
        Op::SiluMulScaled { gate: g, up: u, wg, wu, dst: Buf::Act, n },
        Op::Matmul { w: wd, src: Buf::Act, dst: Buf::FfnOut, rows: 1 },
    );
    flow(m, e0, ffn::ffn_tail_ops(il, down.q8_1_fast, n))->0
}

proof fn lemma_ffn_plain_flows(
    m: Shapes,
    e: Extents,
    n_embd: int,
    il: usize,
    gate: GpuTensor,
    up: GpuTensor,
    down: GpuTensor,
    m3: bool,
    quantized: bool,
) -> (e1: Extents)
    requires
        dense_shaped(m, n_embd, il, gate, up, down),
        alike(e[Buf::Z], row(n_embd as nat)),
        quantized ==> alike(e[Buf::Zq], row(n_embd as nat)) && alike(
            e[Buf::Zd],
            row(n_embd as nat),
        ),
    ensures
        flow(m, e, ffn::ffn_plain_ops(il, gate.out_f, m3, quantized)) == Some(e1),
        e1[Buf::FfnOut] == row(n_embd as nat),
        kept(e, e1),
{
    lemma_flow(m);
    let (wg, wu, wd) = (ffn::w_gate(il), ffn::w_up(il), ffn::w_down(il));
    let (q, d, z) = (Buf::Zq, Buf::Zd, Buf::Z);
    let pg = Op::MatmulPre { w: wg, q, d, src: z, dst: Buf::FfnGate, rows: 1 };
    let pu = Op::MatmulPre { w: wu, q, d, src: z, dst: Buf::FfnUp, rows: 1 };
    let fg = Op::Matmul { w: wg, src: z, dst: Buf::FfnGate, rows: 1 };
    let fu = Op::Matmul { w: wu, src: z, dst: Buf::FfnUp, rows: 1 };
    lemma_flow2(m, e, pg, pu);
    lemma_flow2(m, e, fg, fu);
    let e0 = if quantized {
        next(m, next(m, Some(e), pg), pu)->0
    } else {
        next(m, next(m, Some(e), fg), fu)->0
    };
    lemma_flow2(
        m,
        e0,
        Op::FfnAct { gate: Buf::FfnGate, up: Buf::FfnUp, dst: Buf::Act, n: gate.out_f, m3 },
        Op::Matmul { w: wd, src: Buf::Act, dst: Buf::FfnOut, rows: 1 },
    );
    flow(m, e, ffn::ffn_plain_ops(il, gate.out_f, m3, quantized))->0
}

/// The dense block activates all of its hidden elements.
proof fn lemma_ffn_flows(
    m: Shapes,
    e: Extents,
    n_embd: usize,
    il: usize,
    gate: GpuTensor,
    up: GpuTensor,
    down: GpuTensor,
    dual: bool,
    m3: bool,
) -> (e1: Extents)
    requires
        dense_shaped(m, n_embd as int, il, gate, up, down),
        alike(e[Buf::Z], row(n_embd as nat)),
    ensures
        flow(m, e, ffn::ffn_ops(il, gate, up, down, dual, n_embd, m3)) == Some(e1),
        e1[Buf::FfnOut] == row(n_embd as nat),
        kept(e, e1),
{
    lemma_flow(m);
    let n = n_embd as int;
    let z = Op::Quantize { src: Buf::Z, q: Buf::Zq, d: Buf::Zd, rows: 1, dim: n_embd };
    lemma_flow1(m, e, z);
    let e0 = next(m, Some(e), z)->0;
    assert(flow(m, e, ffn::quantize_z(n_embd)) == Some(e0));
    if m3 {
        lemma_ffn_plain_flows(m, e0, n, il, gate, up, down, true, true)
    } else if gate.q8_1_fast && up.q8_1_fast {
        if dual || (gate.separable && up.separable) {
            let e1 = lemma_ffn_pre_flows(m, e0, n, il, gate, up, down, dual);
            let raw = ffn::ffn_raw_ops(il, dual, gate.separable, up.separable);
            let tail = ffn::ffn_tail_ops(il, down.q8_1_fast, gate.out_f);
            assert(ffn::quantize_z(n_embd) + raw + tail =~= ffn::quantize_z(n_embd) + (raw
                + tail));
            e1
        } else {
            let e2 = lemma_raw_flows(m, e0, n, il, gate, up, down, false);
            lemma_ffn_plain_flows(m, e2, n, il, gate, up, down, false, true)
        }
    } else {
        lemma_ffn_plain_flows(m, e, n, il, gate, up, down, false, false)
    }
}

/// The shapes of a layer, with its cache.
pub open spec fn layer_shaped(m: Shapes, ctx: StepContext, il: int) -> bool {
    let c = ctx.cfg;
    let i = il as usize;
    &&& m.embed == c.n_embd
    &&& (m.vector)(Weight::Layer(i, Slot::AttnNorm)) == c.n_embd
    &&& (m.vector)(Weight::Layer(i, Slot::PostAttnNorm)) == c.n_embd
    &&& match ctx.layers@[il].mixer {
        Mixer::Full(fa) => full_shaped(m, c, i, fa),
        Mixer::Linear(la) => linear_shaped(m, c.ssm->0, c.n_embd as int, i, la),
    }
    &&& ctx.layers@[il].ffn matches Ffn::Dense { ffn_gate, ffn_up, ffn_down } ==> dense_shaped(
        m,
        c.n_embd as int,
        i,
        ffn_gate,
        ffn_up,
        ffn_down,
    )
}

/// The caches of a step are those of its sequence.
pub open spec fn caches_shaped(m: Shapes, seq: usize, kv: Seq<Option<KvMeta>>) -> bool {
    forall|il: int|
        0 <= il < kv.len() && kv[il] is Some ==> #[trigger] (m.kv)(seq, il as usize) == kv[il]->0
}

/// The mixer reaches all of its buffers.
pub proof fn lemma_mixer_flows(
    m: Shapes,
    e: Extents,
    ctx: StepContext,
    kv: Seq<Option<KvMeta>>,
    il: int,
    mode: Counting,
    pre: bool,
) -> (e1: Extents)
    requires
        ctx.wf(),
        ctx.kv_ready(kv),
        caches_shaped(m, 0, kv),
        0 <= il < ctx.layers@.len() <= usize::MAX,
        layer_shaped(m, ctx, il),
        row_ready(e, ctx.cfg.n_embd as int, pre, decode_plan::row_io()),
        e[Buf::Pos].rows == 1,
        pre ==> ctx.layers@[il].mixer.in_fast(),
    ensures
        flow(m, e, decode_plan::mixer_ops(ctx, il, kv[il], mode, pre)) == Some(e1),
        e1[Buf::Mixed] == row(ctx.cfg.n_embd as nat),
        kept(e, e1),
{
    let layer = ctx.layers@[il];
    let io = decode_plan::row_io();
    let f3 = layer.kernels.fused3_qkv;
    let i = il as usize;
    match layer.mixer {
        Mixer::Full(fa) => {
            assert((m.kv)(0, i) == kv[il]->0);
            match mode {
                Counting::Host => lemma_full_flows(
                    m,
                    e,
                    ctx.cfg,
                    fa,
                    f3,
                    0,
                    i,
                    kv[il]->0,
                    pre,
                    ctx.prefetch,
                    io,
                ),
                Counting::Device => lemma_counted_flows(
                    m,
                    e,
                    ctx.cfg,
                    fa,
                    f3,
                    0,
                    i,
                    kv[il]->0,
                    pre,
                    None,
                    io,
                ),
                Counting::Captured(b) => lemma_counted_flows(
                    m,
                    e,
                    ctx.cfg,
                    fa,
                    f3,
                    0,
                    i,
                    kv[il]->0,
                    pre,
                    Some(b),
                    io,
                ),
            }
        },
        Mixer::Linear(la) => lemma_linear_flows(
            m,
            e,
            ctx.cfg.ssm->0,
            ctx.cfg.n_embd,
            0,
            i,
            la,
            layer.kernels,
            pre,
            mode is Captured,
            io,
        ),
    }
}

/// Between layers there is one residual row, and one position.
pub open spec fn at_layer(e: Extents, n_embd: int) -> bool {
    e[Buf::X] == row(n_embd as nat) && e[Buf::Pos].rows == 1
}

pub proof fn lemma_attn_in_flows(
    m: Shapes,
    e: Extents,
    ctx: StepContext,
    kv: Seq<Option<KvMeta>>,
    il: int,
    mode: Counting,
) -> (e1: Extents)
    requires
        ctx.wf(),
        ctx.kv_ready(kv),
        caches_shaped(m, 0, kv),
        0 <= il < ctx.layers@.len() <= usize::MAX,
        layer_shaped(m, ctx, il),
        at_layer(e, ctx.cfg.n_embd as int),
    ensures
        flow(m, e, decode_plan::attn_in_ops(ctx, il, kv[il], mode)) == Some(e1),
        e1[Buf::Mixed] == row(ctx.cfg.n_embd as nat),
        at_layer(e1, ctx.cfg.n_embd as int),
{
    lemma_flow(m);
    let w = Weight::Layer(il as usize, Slot::AttnNorm);
    let dim = ctx.cfg.n_embd;
    let fused = Op::RmsNormQ8 { src: Buf::X, w, q: Buf::Hq, d: Buf::Hd, dim, rows: 1 };
    let plain = Op::RmsNorm { src: Buf::X, w, dst: Buf::H, dim, rows: 1 };
    lemma_flow1(m, e, fused);
    lemma_flow1(m, e, plain);
    let e0 = if ctx.fuses_in(il) {
        next(m, Some(e), fused)->0
    } else {
        next(m, Some(e), plain)->0
    };
    assert(flow(m, e, decode_plan::norm_in_ops(ctx, il)) == Some(e0));
    lemma_mixer_flows(m, e0, ctx, kv, il, mode, ctx.fuses_in(il))
}

pub proof fn lemma_residual_flows(m: Shapes, e: Extents, ctx: StepContext, il: int) -> (e1: Extents)
    requires
        0 <= il < ctx.layers@.len() <= usize::MAX,
        layer_shaped(m, ctx, il),
        !ctx.ffn_blocked(il),
        at_layer(e, ctx.cfg.n_embd as int),
        e[Buf::Mixed] == row(ctx.cfg.n_embd as nat),
    ensures
        flow(m, e, decode_plan::residual_ops(ctx, il)) == Some(e1),
        e1[Buf::X1] == row(ctx.cfg.n_embd as nat),
        e1[Buf::FfnOut] == row(ctx.cfg.n_embd as nat),
        at_layer(e1, ctx.cfg.n_embd as int),
{
    lemma_flow(m);
    let i = il as usize;
    let w = Weight::Layer(i, Slot::PostAttnNorm);
    let dim = ctx.cfg.n_embd;
    let layer = ctx.layers@[il];
    let (a, b, sum) = (Buf::X, Buf::Mixed, Buf::X1);
    let fused = Op::AddRmsNormQ8 { a, b, w, sum, q: Buf::Zq, d: Buf::Zd, dim, rows: 1 };
    let plain = Op::AddRmsNorm { a, b, w, sum, dst: Buf::Z, dim, rows: 1 };
    lemma_flow1(m, e, fused);
    lemma_flow1(m, e, plain);
    let ef = next(m, Some(e), fused)->0;
    let ep = next(m, Some(e), plain)->0;
    match layer.ffn {
        Ffn::Dense { ffn_gate, ffn_up, ffn_down } => {
            let dual = layer.kernels.dual_gate_up;
            if ctx.fuses_ffn(il) {
                lemma_ffn_pre_flows(m, ef, dim as int, i, ffn_gate, ffn_up, ffn_down, dual)
            } else {
                let m3 = ctx.cfg.is_m3();
                lemma_ffn_flows(m, ep, dim, i, ffn_gate, ffn_up, ffn_down, dual, m3)
            }
        },
        Ffn::Moe => {
            let moe = Op::MoeFfn { layer: i, src: Buf::Z, dst: Buf::FfnOut, rows: 1 };
            lemma_flow1(m, ep, moe);
            next(m, Some(ep), moe)->0
        },
    }
}

} // verus!
