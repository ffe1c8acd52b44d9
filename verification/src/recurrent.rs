//! Launch plans of linear attention (a gated delta-rule recurrence) at one row.

use vstd::prelude::*;

use crate::attention::RowBufs;
use crate::config::{LayerKernels, LinearAttnLayer, SsmConfig};
use crate::launch;
use crate::launch::{Buf, Op, Slot, Weight};

verus! {

pub open spec fn lw(il: usize, slot: Slot) -> Weight {
    Weight::Layer(il, slot)
}

/// All four input projections read q8_1 rows.
pub open spec fn inputs_fast(la: LinearAttnLayer) -> bool {
    la.wqkv.q8_1_fast && la.wqkv_gate.q8_1_fast && la.ssm_beta.q8_1_fast && la.ssm_alpha.q8_1_fast
}

/// The beta and alpha projections of a q8_1 row: one launch where a fused kernel serves both.
pub open spec fn beta_alpha_ops(
    il: usize,
    la: LinearAttnLayer,
    dual: bool,
    fused2: bool,
    io: RowBufs,
) -> Seq<Op> {
    let wb = lw(il, Slot::SsmBeta);
    let wa = lw(il, Slot::SsmAlpha);
    if dual {
        seq![
            Op::MatmulRawDual {
                w1: wb,
                w2: wa,
                q: io.q,
                d: io.d,
                dst1: Buf::BetaRaw,
                dst2: Buf::Alpha,
            },
        ] + (if la.ssm_beta.unit_scale {
            Seq::empty()
        } else {
            seq![Op::ApplyScale { w: wb, buf: Buf::BetaRaw, n: la.ssm_beta.out_f }]
        }) + (if la.ssm_alpha.unit_scale {
            Seq::empty()
        } else {
            seq![Op::ApplyScale { w: wa, buf: Buf::Alpha, n: la.ssm_alpha.out_f }]
        })
    } else if fused2 {
        seq![
            Op::Fused2 {
                w1: wb,
                w2: wa,
                q: io.q,
                d: io.d,
                dst1: Buf::BetaRaw,
                dst2: Buf::Alpha,
            },
        ]
    } else {
        seq![
            Op::MatmulPre { w: wb, q: io.q, d: io.d, src: io.h, dst: Buf::BetaRaw, rows: 1 },
            Op::MatmulPre { w: wa, q: io.q, d: io.d, src: io.h, dst: Buf::Alpha, rows: 1 },
        ]
    }
}

/// The mixed and gate projections of a q8_1 row.
pub open spec fn qkv_pair_ops(il: usize, fused2: bool, io: RowBufs) -> Seq<Op> {
    let wm = lw(il, Slot::Wqkv);
    let wz = lw(il, Slot::WqkvGate);
    if fused2 {
        seq![
            Op::Fused2 {
                w1: wm,
                w2: wz,
                q: io.q,
                d: io.d,
                dst1: Buf::QkvMixed,
                dst2: Buf::ZGate,
            },
        ]
    } else {
        seq![
            Op::MatmulPre { w: wm, q: io.q, d: io.d, src: io.h, dst: Buf::QkvMixed, rows: 1 },
            Op::MatmulPre { w: wz, q: io.q, d: io.d, src: io.h, dst: Buf::ZGate, rows: 1 },
        ]
    }
}

/// The projections of a float row; the mixed and gate projections share a launch where they can.
pub open spec fn float_proj_ops(il: usize, fused2_float: bool, io: RowBufs) -> Seq<Op> {
    (if fused2_float {
        seq![
            Op::Fused2Float {
                w1: lw(il, Slot::Wqkv),
                w2: lw(il, Slot::WqkvGate),
                src: io.h,
                dst1: Buf::QkvMixed,
                dst2: Buf::ZGate,
            },
        ]
    } else {
        seq![
            Op::Matmul { w: lw(il, Slot::Wqkv), src: io.h, dst: Buf::QkvMixed, rows: 1 },
            Op::Matmul { w: lw(il, Slot::WqkvGate), src: io.h, dst: Buf::ZGate, rows: 1 },
        ]
    }) + seq![
        Op::Matmul { w: lw(il, Slot::SsmBeta), src: io.h, dst: Buf::BetaRaw, rows: 1 },
        Op::Matmul { w: lw(il, Slot::SsmAlpha), src: io.h, dst: Buf::Alpha, rows: 1 },
    ]
}

pub open spec fn quantize_ops(io: RowBufs, n_embd: usize) -> Seq<Op> {
    seq![Op::Quantize { src: io.h, q: io.q, d: io.d, rows: 1, dim: n_embd }]
}

/// All input projections.
pub open spec fn linear_proj_ops(
    il: usize,
    la: LinearAttnLayer,
    kernels: LayerKernels,
    n_embd: usize,
    pre: bool,
    io: RowBufs,
) -> Seq<Op> {
    if inputs_fast(la) {
        (if pre {
            Seq::empty()
        } else {
            quantize_ops(io, n_embd)
        }) + (beta_alpha_ops(
            il,
            la,
            kernels.dual_beta_alpha,
            kernels.fused2_beta_alpha,
            io,
        ) + qkv_pair_ops(il, kernels.fused2_qkv, io))
    } else {
        float_proj_ops(il, kernels.fused2_qkv_float, io)
    }
}

/// Convolution and recurrent scan. A replayable plan copies the new state back to its place
/// instead of exchanging the two state buffers.
pub open spec fn scan_ops(seq: usize, il: usize, ssm: SsmConfig, persistent: bool) -> Seq<Op> {
    seq![
        Op::ConvStep {
            seq,
            layer: il,
            src: Buf::QkvMixed,
            dst: Buf::ConvOut,
            conv_dim: ssm.conv_dim() as usize,
            d_conv: ssm.conv_kernel,
        },
        Op::GdnPrep {
            layer: il,
            d_state: ssm.state_size,
            num_v: ssm.time_step_rank,
            num_k: ssm.group_count,
            key_dim: ssm.key_dim() as usize,
        },
        Op::GdnScan { seq, layer: il, num_v: ssm.time_step_rank },
        if persistent {
            Op::CopyState { seq, layer: il, n: ssm.state_len() as usize }
        } else {
            Op::SwapState { seq, layer: il }
        },
    ]
}

/// Gated norm and output projection.
pub open spec fn linear_out_ops(
    il: usize,
    la: LinearAttnLayer,
    ssm: SsmConfig,
    out: Buf,
) -> Seq<Op> {
    let (ds, nv) = (ssm.state_size, ssm.time_step_rank);
    if la.ssm_out.q8_1_fast {
        seq![
            Op::GatedRmsNormQ8 {
                layer: il,
                src: Buf::O,
                z: Buf::ZGate,
                q: Buf::Gq,
                d: Buf::Gd,
                dim: ds,
                rows: nv,
            },
            Op::MatmulPre {
                w: lw(il, Slot::SsmOut),
                q: Buf::Gq,
                d: Buf::Gd,
                src: Buf::Gn,
                dst: out,
                rows: 1,
            },
        ]
    } else {
        seq![
            Op::GatedRmsNorm {
                layer: il,
                src: Buf::O,
                z: Buf::ZGate,
                dst: Buf::Gn,
                dim: ds,
                rows: nv,
            },
            Op::Matmul { w: lw(il, Slot::SsmOut), src: Buf::Gn, dst: out, rows: 1 },
        ]
    }
}

/// Linear attention of one row.
pub open spec fn linear_attn_ops(
    seq: usize,
    il: usize,
    la: LinearAttnLayer,
    kernels: LayerKernels,
    ssm: SsmConfig,
    n_embd: usize,
    pre: bool,
    persistent: bool,
    io: RowBufs,
) -> Seq<Op> {
    linear_proj_ops(il, la, kernels, n_embd, pre, io) + scan_ops(seq, il, ssm, persistent)
        + linear_out_ops(il, la, ssm, io.out)
}

fn push_beta_alpha(
    ops: &mut Vec<Op>,
    il: usize,
    la: &LinearAttnLayer,
    dual: bool,
    fused2: bool,
    io: RowBufs,
)
    ensures
        final(ops)@ == old(ops)@ + beta_alpha_ops(il, *la, dual, fused2, io),
{
    let wb = Weight::Layer(il, Slot::SsmBeta);
    let wa = Weight::Layer(il, Slot::SsmAlpha);
    if dual {
        ops.push(
            Op::MatmulRawDual {
                w1: wb,
                w2: wa,
                q: io.q,
                d: io.d,
                dst1: Buf::BetaRaw,
                dst2: Buf::Alpha,
            },
        );
        if !la.ssm_beta.unit_scale {
            ops.push(Op::ApplyScale { w: wb, buf: Buf::BetaRaw, n: la.ssm_beta.out_f });
        }
        if !la.ssm_alpha.unit_scale {
            ops.push(Op::ApplyScale { w: wa, buf: Buf::Alpha, n: la.ssm_alpha.out_f });
        }
    } else if fused2 {
        ops.push(
            Op::Fused2 {
                w1: wb,
                w2: wa,
                q: io.q,
                d: io.d,
                dst1: Buf::BetaRaw,
                dst2: Buf::Alpha,
            },
        );
    } else {
        ops.push(
            Op::MatmulPre { w: wb, q: io.q, d: io.d, src: io.h, dst: Buf::BetaRaw, rows: 1 },
        );
        ops.push(Op::MatmulPre { w: wa, q: io.q, d: io.d, src: io.h, dst: Buf::Alpha, rows: 1 });
    }
    assert(ops@ =~= old(ops)@ + beta_alpha_ops(il, *la, dual, fused2, io));
}

fn push_qkv_pair(ops: &mut Vec<Op>, il: usize, fused2: bool, io: RowBufs)
    ensures
        final(ops)@ == old(ops)@ + qkv_pair_ops(il, fused2, io),
{
    let wm = Weight::Layer(il, Slot::Wqkv);
    let wz = Weight::Layer(il, Slot::WqkvGate);
    if fused2 {
        ops.push(
            Op::Fused2 {
                w1: wm,
                w2: wz,
                q: io.q,
                d: io.d,
                dst1: Buf::QkvMixed,
                dst2: Buf::ZGate,
            },
        );
    } else {
        ops.push(
            Op::MatmulPre { w: wm, q: io.q, d: io.d, src: io.h, dst: Buf::QkvMixed, rows: 1 },
        );
        ops.push(Op::MatmulPre { w: wz, q: io.q, d: io.d, src: io.h, dst: Buf::ZGate, rows: 1 });
    }
    assert(ops@ =~= old(ops)@ + qkv_pair_ops(il, fused2, io));
}

fn push_float_proj(ops: &mut Vec<Op>, il: usize, fused2_float: bool, io: RowBufs)
    ensures
        final(ops)@ == old(ops)@ + float_proj_ops(il, fused2_float, io),
{
    let wm = Weight::Layer(il, Slot::Wqkv);
    let wz = Weight::Layer(il, Slot::WqkvGate);
    if fused2_float {
        ops.push(
            Op::Fused2Float {
                w1: wm,
                w2: wz,
                src: io.h,
                dst1: Buf::QkvMixed,
                dst2: Buf::ZGate,
            },
        );
    } else {
        ops.push(Op::Matmul { w: wm, src: io.h, dst: Buf::QkvMixed, rows: 1 });
        ops.push(Op::Matmul { w: wz, src: io.h, dst: Buf::ZGate, rows: 1 });
    }
    ops.push(
        Op::Matmul { w: Weight::Layer(il, Slot::SsmBeta), src: io.h, dst: Buf::BetaRaw, rows: 1 },
    );
    ops.push(
        Op::Matmul { w: Weight::Layer(il, Slot::SsmAlpha), src: io.h, dst: Buf::Alpha, rows: 1 },
    );
    assert(ops@ =~= old(ops)@ + float_proj_ops(il, fused2_float, io));
}

fn push_proj(
    ops: &mut Vec<Op>,
    il: usize,
    la: &LinearAttnLayer,
    kernels: &LayerKernels,
    n_embd: usize,
    pre: bool,
    io: RowBufs,
)
    ensures
        final(ops)@ == old(ops)@ + linear_proj_ops(il, *la, *kernels, n_embd, pre, io),
{
    if la.wqkv.q8_1_fast && la.wqkv_gate.q8_1_fast && la.ssm_beta.q8_1_fast
        && la.ssm_alpha.q8_1_fast {
        if !pre {
            ops.push(Op::Quantize { src: io.h, q: io.q, d: io.d, rows: 1, dim: n_embd });
            assert(ops@ =~= old(ops)@ + quantize_ops(io, n_embd));
        }
        let (dual, fused2) = (kernels.dual_beta_alpha, kernels.fused2_beta_alpha);
        push_beta_alpha(ops, il, la, dual, fused2, io);
        push_qkv_pair(ops, il, kernels.fused2_qkv, io);
    } else {
        push_float_proj(ops, il, kernels.fused2_qkv_float, io);
    }
    assert(ops@ =~= old(ops)@ + linear_proj_ops(il, *la, *kernels, n_embd, pre, io));
}

/// Plans linear attention of one row of sequence `seq` at layer `il`. With `pre` the row comes
/// quantized, which needs input projections that read q8_1 rows; with `persistent` the plan can
/// be replayed.
pub fn linear_attn_decode_inner(
    ops: &mut Vec<Op>,
    seq: usize,
    il: usize,
    la: &LinearAttnLayer,
    kernels: &LayerKernels,
    ssm: &SsmConfig,
    n_embd: usize,
    pre: bool,
    persistent: bool,
    io: RowBufs,
)
    requires
        ssm.fits(),
    ensures
        final(ops)@ == old(ops)@ + linear_attn_ops(
            seq,
            il,
            *la,
            *kernels,
            *ssm,
            n_embd,
            pre,
            persistent,
            io,
        ),
{
    let d_state = ssm.state_size;
    let num_k = ssm.group_count;
    let num_v = ssm.time_step_rank;
    let key_dim: usize = d_state * num_k;
    let value_dim: usize = d_state * num_v;
    assert(key_dim * 2 <= usize::MAX);
    let conv_dim: usize = key_dim * 2 + value_dim;
    let n_state: usize = d_state * d_state * num_v;
    push_proj(ops, il, la, kernels, n_embd, pre, io);
    let ghost p1 = ops@;
    ops.push(
        Op::ConvStep {
            seq,
            layer: il,
            src: Buf::QkvMixed,
            dst: Buf::ConvOut,
            conv_dim,
            d_conv: ssm.conv_kernel,
        },
    );
    ops.push(Op::GdnPrep { layer: il, d_state, num_v, num_k, key_dim });
    ops.push(Op::GdnScan { seq, layer: il, num_v });
    if persistent {
        ops.push(Op::CopyState { seq, layer: il, n: n_state });
    } else {
        ops.push(Op::SwapState { seq, layer: il });
    }
    let ghost p2 = ops@;
    assert(p2 =~= p1 + scan_ops(seq, il, *ssm, persistent));
    let wo = Weight::Layer(il, Slot::SsmOut);
    if la.ssm_out.q8_1_fast {
        ops.push(
            Op::GatedRmsNormQ8 {
                layer: il,
                src: Buf::O,
                z: Buf::ZGate,
                q: Buf::Gq,
                d: Buf::Gd,
                dim: d_state,
                rows: num_v,
            },
        );
        ops.push(
            Op::MatmulPre {
                w: wo,
                q: Buf::Gq,
                d: Buf::Gd,
                src: Buf::Gn,
                dst: io.out,
                rows: 1,
            },
        );
    } else {
        ops.push(
            Op::GatedRmsNorm {
                layer: il,
                src: Buf::O,
                z: Buf::ZGate,
                dst: Buf::Gn,
                dim: d_state,
                rows: num_v,
            },
        );
        ops.push(Op::Matmul { w: wo, src: Buf::Gn, dst: io.out, rows: 1 });
    }
    assert(ops@ =~= p2 + linear_out_ops(il, *la, *ssm, io.out));
    assert(ops@ =~= old(ops)@ + linear_attn_ops(
        seq,
        il,
        *la,
        *kernels,
        *ssm,
        n_embd,
        pre,
        persistent,
        io,
    ));
}

/// Mixed projection of a normalized row.
pub open spec fn mixed_term(env: launch::Env, il: usize, h: launch::Term) -> launch::Term {
    launch::mm(env, lw(il, Slot::Wqkv), h)
}

/// The convolution ring after the row.
pub open spec fn ring_term(
    env: launch::Env,
    il: usize,
    h: launch::Term,
    conv: launch::Term,
) -> launch::Term {
    launch::bin(launch::Fun::ConvRoll, conv, mixed_term(env, il, h))
}

/// What the scan reads for the row.
pub open spec fn scan_terms(
    env: launch::Env,
    il: usize,
    ssm: SsmConfig,
    h: launch::Term,
    conv: launch::Term,
    state: launch::Term,
) -> Seq<launch::Term> {
    let c = launch::bin(
        launch::Fun::ConvOut(lw(il, Slot::SsmConv1d)),
        conv,
        mixed_term(env, il, h),
    );
    let (ds, nv, nk) = (
        ssm.state_size as nat,
        ssm.time_step_rank as nat,
        ssm.group_count as nat,
    );
    seq![
        launch::un(launch::Fun::GdnQ(ds, nv, nk), c),
        launch::un(launch::Fun::GdnK(ds, nv, nk), c),
        launch::un(launch::Fun::GdnV(ds, nv, nk), c),
        launch::un(
            launch::Fun::GdnDecay(il as nat),
            launch::mm(env, lw(il, Slot::SsmAlpha), h),
        ),
        launch::un(launch::Fun::GdnBeta, launch::mm(env, lw(il, Slot::SsmBeta), h)),
        state,
    ]
}

/// The recurrent state after the row.
pub open spec fn state_term(
    env: launch::Env,
    il: usize,
    ssm: SsmConfig,
    h: launch::Term,
    conv: launch::Term,
    state: launch::Term,
) -> launch::Term {
    launch::Term::Node(launch::Fun::ScanState, scan_terms(env, il, ssm, h, conv, state))
}

/// What linear attention computes of a normalized row, given ring and state before it.
pub open spec fn linear_attn_term(
    env: launch::Env,
    il: usize,
    ssm: SsmConfig,
    h: launch::Term,
    conv: launch::Term,
    state: launch::Term,
) -> launch::Term {
    launch::mm(
        env,
        lw(il, Slot::SsmOut),
        launch::gated_rms(
            il,
            ssm.state_size as nat,
            launch::Term::Node(launch::Fun::ScanOut, scan_terms(env, il, ssm, h, conv, state)),
            launch::mm(env, lw(il, Slot::WqkvGate), h),
        ),
    )
}

/// The flags agree with the device.
pub open spec fn linear_flags(
    env: launch::Env,
    il: usize,
    la: LinearAttnLayer,
    kernels: LayerKernels,
) -> bool {
    &&& (env.fast)(lw(il, Slot::Wqkv)) == la.wqkv.q8_1_fast
    &&& (env.fast)(lw(il, Slot::WqkvGate)) == la.wqkv_gate.q8_1_fast
    &&& (env.fast)(lw(il, Slot::SsmBeta)) == la.ssm_beta.q8_1_fast
    &&& (env.fast)(lw(il, Slot::SsmAlpha)) == la.ssm_alpha.q8_1_fast
    &&& (env.fast)(lw(il, Slot::SsmOut)) == la.ssm_out.q8_1_fast
    &&& (env.unit)(lw(il, Slot::SsmBeta)) == la.ssm_beta.unit_scale
    &&& (env.unit)(lw(il, Slot::SsmAlpha)) == la.ssm_alpha.unit_scale
    &&& kernels.fused2_qkv_float ==> la.wqkv.q8_1_fast && la.wqkv_gate.q8_1_fast
}

/// Scratch that linear attention overwrites.
pub open spec fn linear_scratch(io: RowBufs, b: Buf) -> bool {
    ||| b == io.q
    ||| b == io.d
    ||| b == io.out
    ||| b == Buf::QkvMixed
    ||| b == Buf::ZGate
    ||| b == Buf::BetaRaw
    ||| b == Buf::Alpha
    ||| b == Buf::ConvOut
    ||| b == Buf::QL2
    ||| b == Buf::KL2
    ||| b == Buf::VGdn
    ||| b == Buf::Beta
    ||| b == Buf::GLog
    ||| b == Buf::O
    ||| b == Buf::Gn
    ||| b == Buf::Gq
    ||| b == Buf::Gd
}

proof fn lemma_beta_alpha(
    env: launch::Env,
    s: launch::Store,
    il: usize,
    la: LinearAttnLayer,
    dual: bool,
    fused2: bool,
    io: RowBufs,
    h: launch::Term,
)
    requires
        io.wf(),
        s[io.q] == seq![launch::q8_quants(h)],
        s[io.d] == seq![launch::q8_scales(h)],
        inputs_fast(la),
        (env.fast)(lw(il, Slot::SsmBeta)),
        (env.fast)(lw(il, Slot::SsmAlpha)),
        (env.unit)(lw(il, Slot::SsmBeta)) == la.ssm_beta.unit_scale,
        (env.unit)(lw(il, Slot::SsmAlpha)) == la.ssm_alpha.unit_scale,
    ensures
        ({
            let e = launch::run(env, s, beta_alpha_ops(il, la, dual, fused2, io));
            &&& e[Buf::BetaRaw] == seq![launch::mm(env, lw(il, Slot::SsmBeta), h)]
            &&& e[Buf::Alpha] == seq![launch::mm(env, lw(il, Slot::SsmAlpha), h)]
            &&& e[io.q] == s[io.q]
            &&& e[io.d] == s[io.d]
        }),
{
    let ops = beta_alpha_ops(il, la, dual, fused2, io);
    let wb = lw(il, Slot::SsmBeta);
    let wa = lw(il, Slot::SsmAlpha);
    launch::lemma_run_frame(env, s, ops, io.q);
    launch::lemma_run_frame(env, s, ops, io.d);
    let e = launch::run(env, s, ops);
    let q = launch::q8_quants(h);
    let d = launch::q8_scales(h);
    reveal(launch::step);
    if dual {
        let s1 = launch::step(env, s, ops[0]);
        assert(s1[Buf::BetaRaw] =~= seq![launch::mm_raw(wb, q, d)]);
        assert(s1[Buf::Alpha] =~= seq![launch::mm_raw(wa, q, d)]);
        if la.ssm_beta.unit_scale && la.ssm_alpha.unit_scale {
            launch::lemma_run1(env, s, ops[0]);
            assert(ops =~= seq![ops[0]]);
        } else if la.ssm_beta.unit_scale || la.ssm_alpha.unit_scale {
            launch::lemma_run2(env, s, ops[0], ops[1]);
            assert(ops =~= seq![ops[0], ops[1]]);
        } else {
            launch::lemma_run3(env, s, ops[0], ops[1], ops[2]);
            assert(ops =~= seq![ops[0], ops[1], ops[2]]);
        }
        assert(e[Buf::BetaRaw] =~= seq![launch::mm(env, wb, h)]);
        assert(e[Buf::Alpha] =~= seq![launch::mm(env, wa, h)]);
    } else if fused2 {
        launch::lemma_run1(env, s, ops[0]);
        assert(ops =~= seq![ops[0]]);
    } else {
        launch::lemma_run2(env, s, ops[0], ops[1]);
        assert(ops =~= seq![ops[0], ops[1]]);
        assert(e[Buf::BetaRaw] =~= seq![launch::mm(env, wb, h)]);
        assert(e[Buf::Alpha] =~= seq![launch::mm(env, wa, h)]);
    }
}

proof fn lemma_qkv_pair(
    env: launch::Env,
    s: launch::Store,
    il: usize,
    fused2: bool,
    io: RowBufs,
    h: launch::Term,
)
    requires
        io.wf(),
        s[io.q] == seq![launch::q8_quants(h)],
        s[io.d] == seq![launch::q8_scales(h)],
        (env.fast)(lw(il, Slot::Wqkv)),
        (env.fast)(lw(il, Slot::WqkvGate)),
    ensures
        ({
            let e = launch::run(env, s, qkv_pair_ops(il, fused2, io));
            &&& e[Buf::QkvMixed] == seq![mixed_term(env, il, h)]
            &&& e[Buf::ZGate] == seq![launch::mm(env, lw(il, Slot::WqkvGate), h)]
            &&& e[Buf::BetaRaw] == s[Buf::BetaRaw]
            &&& e[Buf::Alpha] == s[Buf::Alpha]
        }),
{
    let ops = qkv_pair_ops(il, fused2, io);
    let e = launch::run(env, s, ops);
    launch::lemma_run_frame(env, s, ops, Buf::BetaRaw);
    launch::lemma_run_frame(env, s, ops, Buf::Alpha);
    reveal(launch::step);
    if fused2 {
        launch::lemma_run1(env, s, ops[0]);
        assert(ops =~= seq![ops[0]]);
    } else {
        launch::lemma_run2(env, s, ops[0], ops[1]);
        assert(ops =~= seq![ops[0], ops[1]]);
    }
    assert(e[Buf::QkvMixed] =~= seq![mixed_term(env, il, h)]);
    assert(e[Buf::ZGate] =~= seq![launch::mm(env, lw(il, Slot::WqkvGate), h)]);
}

proof fn lemma_float_proj(
    env: launch::Env,
    s: launch::Store,
    il: usize,
    fused2_float: bool,
    io: RowBufs,
    h: launch::Term,
)
    requires
        io.wf(),
        s[io.h] == seq![h],
        fused2_float ==> (env.fast)(lw(il, Slot::Wqkv)) && (env.fast)(lw(il, Slot::WqkvGate)),
    ensures
        ({
            let e = launch::run(env, s, float_proj_ops(il, fused2_float, io));
            &&& e[Buf::QkvMixed] == seq![mixed_term(env, il, h)]
            &&& e[Buf::ZGate] == seq![launch::mm(env, lw(il, Slot::WqkvGate), h)]
            &&& e[Buf::BetaRaw] == seq![launch::mm(env, lw(il, Slot::SsmBeta), h)]
            &&& e[Buf::Alpha] == seq![launch::mm(env, lw(il, Slot::SsmAlpha), h)]
        }),
{
    let ops = float_proj_ops(il, fused2_float, io);
    let e = launch::run(env, s, ops);
    reveal(launch::step);
    if fused2_float {
        launch::lemma_run3(env, s, ops[0], ops[1], ops[2]);
        assert(ops =~= seq![ops[0], ops[1], ops[2]]);
    } else {
        launch::lemma_run4(env, s, ops[0], ops[1], ops[2], ops[3]);
        assert(ops =~= seq![ops[0], ops[1], ops[2], ops[3]]);
    }
    assert(e[Buf::QkvMixed] =~= seq![mixed_term(env, il, h)]);
    assert(e[Buf::ZGate] =~= seq![launch::mm(env, lw(il, Slot::WqkvGate), h)]);
    assert(e[Buf::BetaRaw] =~= seq![launch::mm(env, lw(il, Slot::SsmBeta), h)]);
    assert(e[Buf::Alpha] =~= seq![launch::mm(env, lw(il, Slot::SsmAlpha), h)]);
}

proof fn lemma_linear_proj(
    env: launch::Env,
    s: launch::Store,
    il: usize,
    la: LinearAttnLayer,
    kernels: LayerKernels,
    n_embd: usize,
    pre: bool,
    io: RowBufs,
    h: launch::Term,
)
    requires
        io.wf(),
        linear_flags(env, il, la, kernels),
        crate::attention::feeds(s, io, pre, h),
        pre ==> inputs_fast(la),
    ensures
        ({
            let e = launch::run(env, s, linear_proj_ops(il, la, kernels, n_embd, pre, io));
            &&& e[Buf::QkvMixed] == seq![mixed_term(env, il, h)]
            &&& e[Buf::ZGate] == seq![launch::mm(env, lw(il, Slot::WqkvGate), h)]
            &&& e[Buf::BetaRaw] == seq![launch::mm(env, lw(il, Slot::SsmBeta), h)]
            &&& e[Buf::Alpha] == seq![launch::mm(env, lw(il, Slot::SsmAlpha), h)]
        }),
{
    if inputs_fast(la) {
        let q0 = if pre {
            Seq::<Op>::empty()
        } else {
            quantize_ops(io, n_embd)
        };
        let ba = beta_alpha_ops(
            il,
            la,
            kernels.dual_beta_alpha,
            kernels.fused2_beta_alpha,
            io,
        );
        let qp = qkv_pair_ops(il, kernels.fused2_qkv, io);
        let s1 = launch::run(env, s, q0);
        if !pre {
            launch::lemma_run1(env, s, q0[0]);
            assert(q0 =~= seq![q0[0]]);
            reveal(launch::step);
            assert(s1[io.q] =~= seq![launch::q8_quants(h)]);
            assert(s1[io.d] =~= seq![launch::q8_scales(h)]);
        }
        lemma_beta_alpha(
            env,
            s1,
            il,
            la,
            kernels.dual_beta_alpha,
            kernels.fused2_beta_alpha,
            io,
            h,
        );
        let s2 = launch::run(env, s1, ba);
        lemma_qkv_pair(env, s2, il, kernels.fused2_qkv, io, h);
        launch::lemma_run_concat(env, s1, ba, qp);
        launch::lemma_run_concat(env, s, q0, ba + qp);
    } else {
        lemma_float_proj(env, s, il, kernels.fused2_qkv_float, io, h);
    }
}

proof fn lemma_proj_spares(
    il: usize,
    la: LinearAttnLayer,
    kernels: LayerKernels,
    n_embd: usize,
    pre: bool,
    io: RowBufs,
    b: Buf,
)
    requires
        io.wf(),
        !linear_scratch(io, b),
    ensures
        launch::spares(linear_proj_ops(il, la, kernels, n_embd, pre, io), b),
{
    if inputs_fast(la) {
        let q0 = if pre {
            Seq::<Op>::empty()
        } else {
            quantize_ops(io, n_embd)
        };
        let ba = beta_alpha_ops(
            il,
            la,
            kernels.dual_beta_alpha,
            kernels.fused2_beta_alpha,
            io,
        );
        let qp = qkv_pair_ops(il, kernels.fused2_qkv, io);
        assert(launch::spares(q0, b));
        assert(launch::spares(ba, b));
        assert(launch::spares(qp, b));
        launch::lemma_spares_concat(ba, qp, b);
        launch::lemma_spares_concat(q0, ba + qp, b);
    } else {
        assert(launch::spares(float_proj_ops(il, kernels.fused2_qkv_float, io), b));
    }
}

proof fn lemma_scan(
    env: launch::Env,
    s: launch::Store,
    seq: usize,
    il: usize,
    ssm: SsmConfig,
    persistent: bool,
    io: RowBufs,
    h: launch::Term,
    conv: launch::Term,
    state: launch::Term,
)
    requires
        io.wf(),
        s[Buf::QkvMixed] == seq![mixed_term(env, il, h)],
        s[Buf::BetaRaw] == seq![launch::mm(env, lw(il, Slot::SsmBeta), h)],
        s[Buf::Alpha] == seq![launch::mm(env, lw(il, Slot::SsmAlpha), h)],
        s[Buf::Conv { seq, layer: il }] == seq![conv],
        s[Buf::Ssm { seq, layer: il }] == seq![state],
    ensures
        ({
            let e = launch::run(env, s, scan_ops(seq, il, ssm, persistent));
            &&& e[Buf::O] == seq![
                launch::Term::Node(
                    launch::Fun::ScanOut,
                    scan_terms(env, il, ssm, h, conv, state),
                ),
            ]
            &&& e[Buf::Ssm { seq, layer: il }] == seq![
                state_term(env, il, ssm, h, conv, state),
            ]
            &&& e[Buf::Conv { seq, layer: il }] == seq![ring_term(env, il, h, conv)]
            &&& e[Buf::ZGate] == s[Buf::ZGate]
        }),
{
    let ops = scan_ops(seq, il, ssm, persistent);
    launch::lemma_run_frame(env, s, ops, Buf::ZGate);
    launch::lemma_run4(env, s, ops[0], ops[1], ops[2], ops[3]);
    assert(ops =~= seq![ops[0], ops[1], ops[2], ops[3]]);
    let s1 = launch::step(env, s, ops[0]);
    let s2 = launch::step(env, s1, ops[1]);
    let s3 = launch::step(env, s2, ops[2]);
    let s4 = launch::step(env, s3, ops[3]);
    let args = scan_terms(env, il, ssm, h, conv, state);
    assert(s1[Buf::ConvOut] == seq![
        launch::bin(
            launch::Fun::ConvOut(lw(il, Slot::SsmConv1d)),
            conv,
            mixed_term(env, il, h),
        ),
    ] && s1[Buf::Conv { seq, layer: il }] == seq![ring_term(env, il, h, conv)]
        && s1[Buf::BetaRaw] == s[Buf::BetaRaw] && s1[Buf::Alpha] == s[Buf::Alpha]
        && s1[Buf::Ssm { seq, layer: il }] == seq![state]) by {
        reveal(launch::step);
    }
    assert(s2[Buf::QL2] == seq![args[0]] && s2[Buf::KL2] == seq![args[1]] && s2[Buf::VGdn]
        == seq![args[2]] && s2[Buf::GLog] == seq![args[3]] && s2[Buf::Beta] == seq![args[4]]
        && s2[Buf::Ssm { seq, layer: il }] == seq![state] && s2[Buf::Conv { seq, layer: il }]
        == s1[Buf::Conv { seq, layer: il }]) by {
        reveal(launch::step);
    }
    assert(launch::scan_args(s2, seq, il) =~= args);
    assert(s3[Buf::O] == seq![launch::Term::Node(launch::Fun::ScanOut, args)]
        && s3[Buf::SsmAlt { seq, layer: il }] == seq![
        launch::Term::Node(launch::Fun::ScanState, args),
    ] && s3[Buf::Conv { seq, layer: il }] == s1[Buf::Conv { seq, layer: il }]) by {
        reveal(launch::step);
    }
    assert(s4[Buf::O] == s3[Buf::O] && s4[Buf::Ssm { seq, layer: il }] == s3[Buf::SsmAlt {
        seq,
        layer: il,
    }] && s4[Buf::Conv { seq, layer: il }] == s3[Buf::Conv { seq, layer: il }]) by {
        reveal(launch::step);
    }
}

/// Everything but the scratch and the layer's own state is as before. The spare state buffer is
/// scratch too.
pub open spec fn linear_frame(
    s: launch::Store,
    e: launch::Store,
    io: RowBufs,
    seq: usize,
    il: usize,
) -> bool {
    forall|b: Buf|
        !linear_scratch(io, b) && b != (Buf::Conv { seq, layer: il }) && b != (Buf::Ssm {
            seq,
            layer: il,
        }) && b != (Buf::SsmAlt { seq, layer: il }) ==> #[trigger] e[b] == s[b]
}

/// Whichever kernels serve it, and whether the new state is swapped in or copied back, the plan
/// computes linear attention, rolls the ring, replaces the state, and touches nothing else.
pub proof fn law_linear_attn_plan(
    env: launch::Env,
    s: launch::Store,
    seq: usize,
    il: usize,
    la: LinearAttnLayer,
    kernels: LayerKernels,
    ssm: SsmConfig,
    n_embd: usize,
    pre: bool,
    persistent: bool,
    io: RowBufs,
    h: launch::Term,
    conv: launch::Term,
    state: launch::Term,
)
    requires
        io.wf(),
        linear_flags(env, il, la, kernels),
        crate::attention::feeds(s, io, pre, h),
        pre ==> inputs_fast(la),
        s[Buf::Conv { seq, layer: il }] == seq![conv],
        s[Buf::Ssm { seq, layer: il }] == seq![state],
    ensures
        ({
            let e = launch::run(
                env,
                s,
                linear_attn_ops(seq, il, la, kernels, ssm, n_embd, pre, persistent, io),
            );
            &&& e[io.out] == seq![linear_attn_term(env, il, ssm, h, conv, state)]
            &&& e[Buf::Conv { seq, layer: il }] == seq![ring_term(env, il, h, conv)]
            &&& e[Buf::Ssm { seq, layer: il }] == seq![
                state_term(env, il, ssm, h, conv, state),
            ]
            &&& linear_frame(s, e, io, seq, il)
        }),
{
    let proj = linear_proj_ops(il, la, kernels, n_embd, pre, io);
    let scan = scan_ops(seq, il, ssm, persistent);
    let out = linear_out_ops(il, la, ssm, io.out);
    let cb = Buf::Conv { seq, layer: il };
    let sb = Buf::Ssm { seq, layer: il };
    let ab = Buf::SsmAlt { seq, layer: il };
    let s1 = launch::run(env, s, proj);
    lemma_linear_proj(env, s, il, la, kernels, n_embd, pre, io, h);
    lemma_proj_spares(il, la, kernels, n_embd, pre, io, cb);
    lemma_proj_spares(il, la, kernels, n_embd, pre, io, sb);
    launch::lemma_run_frame(env, s, proj, cb);
    launch::lemma_run_frame(env, s, proj, sb);
    let s2 = launch::run(env, s1, scan);
    lemma_scan(env, s1, seq, il, ssm, persistent, io, h, conv, state);
    let e = launch::run(env, s2, out);
    launch::lemma_run_concat(env, s, proj, scan);
    launch::lemma_run_concat(env, s, proj + scan, out);
    launch::lemma_run2(env, s2, out[0], out[1]);
    assert(out =~= seq![out[0], out[1]]);
    assert(e[io.out] == seq![linear_attn_term(env, il, ssm, h, conv, state)] && e[cb] == s2[cb]
        && e[sb] == s2[sb]) by {
        let t1 = launch::step(env, s2, out[0]);
        reveal(launch::step);
        assert(e[io.out] =~= seq![linear_attn_term(env, il, ssm, h, conv, state)]);
    }
    assert forall|b: Buf|
        !linear_scratch(io, b) && b != cb && b != sb && b != ab implies #[trigger] e[b] == s[b] by {
        lemma_proj_spares(il, la, kernels, n_embd, pre, io, b);
        launch::lemma_run_frame(env, s, proj, b);
        assert(launch::spares(scan, b));
        launch::lemma_run_frame(env, s1, scan, b);
        assert(launch::spares(out, b));
        launch::lemma_run_frame(env, s2, out, b);
    }
}

} // verus!
