//! Launch plans of the dense feed-forward block at one row.

use vstd::prelude::*;

use crate::config::{GpuTensor, LayerKernels};
use crate::launch;
use crate::launch::{Buf, Op, Slot, Weight};

verus! {

/// Why a plan cannot be made.
#[derive(Clone, Copy, Debug, PartialEq, Eq, Structural)]
pub enum PlanError {
    /// The pre-quantized block needs projections whose macro scale can be left out.
    GateUpNotSeparable,
    /// The naive attention cannot read the quantized KV cache.
    NaiveAttention,
}

pub open spec fn w_gate(il: usize) -> Weight {
    Weight::Layer(il, Slot::FfnGate)
}

pub open spec fn w_up(il: usize) -> Weight {
    Weight::Layer(il, Slot::FfnUp)
}

pub open spec fn w_down(il: usize) -> Weight {
    Weight::Layer(il, Slot::FfnDown)
}

/// From the unscaled projections to the block's output. When the down projection reads q8_1
/// rows, the activation is emitted as such.
pub open spec fn ffn_tail_ops(il: usize, down_fast: bool, n_ff: usize) -> Seq<Op> {
    if down_fast {
        seq![
            Op::SiluMulScaledQ8 {
                gate: Buf::FfnGate,
                up: Buf::FfnUp,
                wg: w_gate(il),
                wu: w_up(il),
                q: Buf::ActQ,
                d: Buf::ActD,
                n: n_ff,
            },
            Op::MatmulPre {
                w: w_down(il),
                q: Buf::ActQ,
                d: Buf::ActD,
                src: Buf::FfnGate,
                dst: Buf::FfnOut,
                rows: 1,
            },
        ]
    } else {
        seq![
            Op::SiluMulScaled {
                gate: Buf::FfnGate,
                up: Buf::FfnUp,
                wg: w_gate(il),
                wu: w_up(il),
                dst: Buf::Act,
                n: n_ff,
            },
            Op::Matmul { w: w_down(il), src: Buf::Act, dst: Buf::FfnOut, rows: 1 },
        ]
    }
}

/// The unscaled gate and up projections of the q8_1 row: one launch where a dual kernel serves
/// both, else one launch for each that can leave out its scale.
pub open spec fn ffn_raw_ops(il: usize, dual: bool, sep_gate: bool, sep_up: bool) -> Seq<Op> {
    if dual {
        seq![
            Op::MatmulRawDual {
                w1: w_gate(il),
                w2: w_up(il),
                q: Buf::Zq,
                d: Buf::Zd,
                dst1: Buf::FfnGate,
                dst2: Buf::FfnUp,
            },
        ]
    } else {
        (if sep_gate {
            seq![Op::MatmulRaw { w: w_gate(il), q: Buf::Zq, d: Buf::Zd, dst: Buf::FfnGate }]
        } else {
            Seq::empty()
        }) + (if sep_up {
            seq![Op::MatmulRaw { w: w_up(il), q: Buf::Zq, d: Buf::Zd, dst: Buf::FfnUp }]
        } else {
            Seq::empty()
        })
    }
}

/// The scaled gate and up projections, the activation and the down projection.
pub open spec fn ffn_plain_ops(il: usize, n_ff: usize, m3: bool, quantized: bool) -> Seq<Op> {
    (if quantized {
        seq![
            Op::MatmulPre {
                w: w_gate(il),
                q: Buf::Zq,
                d: Buf::Zd,
                src: Buf::Z,
                dst: Buf::FfnGate,
                rows: 1,
            },
            Op::MatmulPre {
                w: w_up(il),
                q: Buf::Zq,
                d: Buf::Zd,
                src: Buf::Z,
                dst: Buf::FfnUp,
                rows: 1,
            },
        ]
    } else {
        seq![
            Op::Matmul { w: w_gate(il), src: Buf::Z, dst: Buf::FfnGate, rows: 1 },
            Op::Matmul { w: w_up(il), src: Buf::Z, dst: Buf::FfnUp, rows: 1 },
        ]
    }) + seq![
        Op::FfnAct { gate: Buf::FfnGate, up: Buf::FfnUp, dst: Buf::Act, n: n_ff, m3 },
        Op::Matmul { w: w_down(il), src: Buf::Act, dst: Buf::FfnOut, rows: 1 },
    ]
}

pub open spec fn quantize_z(n_embd: usize) -> Seq<Op> {
    seq![Op::Quantize { src: Buf::Z, q: Buf::Zq, d: Buf::Zd, rows: 1, dim: n_embd }]
}

/// The dense block on the float row `Z`. M3 models take the clamped activation, which no fused
/// kernel computes.
pub open spec fn ffn_ops(
    il: usize,
    gate: GpuTensor,
    up: GpuTensor,
    down: GpuTensor,
    dual: bool,
    n_embd: usize,
    m3: bool,
) -> Seq<Op> {
    let n_ff = gate.out_f;
    if m3 {
        quantize_z(n_embd) + ffn_plain_ops(il, n_ff, true, true)
    } else if gate.q8_1_fast && up.q8_1_fast {
        if dual || (gate.separable && up.separable) {
            quantize_z(n_embd) + ffn_raw_ops(il, dual, gate.separable, up.separable)
                + ffn_tail_ops(il, down.q8_1_fast, n_ff)
        } else {
            quantize_z(n_embd) + ffn_raw_ops(il, false, gate.separable, up.separable)
                + ffn_plain_ops(il, n_ff, false, true)
        }
    } else {
        ffn_plain_ops(il, n_ff, false, false)
    }
}

/// The dense block on the q8_1 row `Zq`, `Zd`.
pub open spec fn ffn_pre_ops(
    il: usize,
    gate: GpuTensor,
    up: GpuTensor,
    down: GpuTensor,
    dual: bool,
) -> Seq<Op> {
    ffn_raw_ops(il, dual, gate.separable, up.separable) + ffn_tail_ops(
        il,
        down.q8_1_fast,
        gate.out_f,
    )
}

/// The pre-quantized block can be planned.
pub open spec fn ffn_pre_possible(gate: GpuTensor, up: GpuTensor, dual: bool) -> bool {
    dual || (gate.separable && up.separable)
}

fn push_tail(ops: &mut Vec<Op>, il: usize, down_fast: bool, n_ff: usize)
    ensures
        final(ops)@ == old(ops)@ + ffn_tail_ops(il, down_fast, n_ff),
{
    let wg = Weight::Layer(il, Slot::FfnGate);
    let wu = Weight::Layer(il, Slot::FfnUp);
    let wd = Weight::Layer(il, Slot::FfnDown);
    if down_fast {
        ops.push(
            Op::SiluMulScaledQ8 {
                gate: Buf::FfnGate,
                up: Buf::FfnUp,
                wg,
                wu,
                q: Buf::ActQ,
                d: Buf::ActD,
                n: n_ff,
            },
        );
        ops.push(
            Op::MatmulPre {
                w: wd,
                q: Buf::ActQ,
                d: Buf::ActD,
                src: Buf::FfnGate,
                dst: Buf::FfnOut,
                rows: 1,
            },
        );
    } else {
        ops.push(
            Op::SiluMulScaled {
                gate: Buf::FfnGate,
                up: Buf::FfnUp,
                wg,
                wu,
                dst: Buf::Act,
                n: n_ff,
            },
        );
        ops.push(Op::Matmul { w: wd, src: Buf::Act, dst: Buf::FfnOut, rows: 1 });
    }
    assert(ops@ =~= old(ops)@ + ffn_tail_ops(il, down_fast, n_ff));
}

fn push_raw(ops: &mut Vec<Op>, il: usize, dual: bool, sep_gate: bool, sep_up: bool)
    ensures
        final(ops)@ == old(ops)@ + ffn_raw_ops(il, dual, sep_gate, sep_up),
{
    let wg = Weight::Layer(il, Slot::FfnGate);
    let wu = Weight::Layer(il, Slot::FfnUp);
    if dual {
        ops.push(
            Op::MatmulRawDual {
                w1: wg,
                w2: wu,
                q: Buf::Zq,
                d: Buf::Zd,
                dst1: Buf::FfnGate,
                dst2: Buf::FfnUp,
            },
        );
    } else {
        if sep_gate {
            ops.push(Op::MatmulRaw { w: wg, q: Buf::Zq, d: Buf::Zd, dst: Buf::FfnGate });
        }
        if sep_up {
            ops.push(Op::MatmulRaw { w: wu, q: Buf::Zq, d: Buf::Zd, dst: Buf::FfnUp });
        }
    }
    assert(ops@ =~= old(ops)@ + ffn_raw_ops(il, dual, sep_gate, sep_up));
}

fn push_plain(ops: &mut Vec<Op>, il: usize, n_ff: usize, m3: bool, quantized: bool)
    ensures
        final(ops)@ == old(ops)@ + ffn_plain_ops(il, n_ff, m3, quantized),
{
    let wg = Weight::Layer(il, Slot::FfnGate);
    let wu = Weight::Layer(il, Slot::FfnUp);
    let wd = Weight::Layer(il, Slot::FfnDown);
    if quantized {
        ops.push(
            Op::MatmulPre {
                w: wg,
                q: Buf::Zq,
                d: Buf::Zd,
                src: Buf::Z,
                dst: Buf::FfnGate,
                rows: 1,
            },
        );
        ops.push(
            Op::MatmulPre {
                w: wu,
                q: Buf::Zq,
                d: Buf::Zd,
                src: Buf::Z,
                dst: Buf::FfnUp,
                rows: 1,
            },
        );
    } else {
        ops.push(Op::Matmul { w: wg, src: Buf::Z, dst: Buf::FfnGate, rows: 1 });
        ops.push(Op::Matmul { w: wu, src: Buf::Z, dst: Buf::FfnUp, rows: 1 });
    }
    ops.push(Op::FfnAct { gate: Buf::FfnGate, up: Buf::FfnUp, dst: Buf::Act, n: n_ff, m3 });
    ops.push(Op::Matmul { w: wd, src: Buf::Act, dst: Buf::FfnOut, rows: 1 });
    assert(ops@ =~= old(ops)@ + ffn_plain_ops(il, n_ff, m3, quantized));
}

/// Plans the dense block of layer `il` on the float row `Z`; the result lands in `FfnOut`.
pub fn ffn_swiglu_decode(
    ops: &mut Vec<Op>,
    il: usize,
    ffn_gate: &GpuTensor,
    ffn_up: &GpuTensor,
    ffn_down: &GpuTensor,
    kernels: &LayerKernels,
    n_embd: usize,
    m3: bool,
)
    ensures
        final(ops)@ == old(ops)@ + ffn_ops(
            il,
            *ffn_gate,
            *ffn_up,
            *ffn_down,
            kernels.dual_gate_up,
            n_embd,
            m3,
        ),
{
    let n_ff = ffn_gate.out_f;
    if m3 || (ffn_gate.q8_1_fast && ffn_up.q8_1_fast) {
        ops.push(Op::Quantize { src: Buf::Z, q: Buf::Zq, d: Buf::Zd, rows: 1, dim: n_embd });
        assert(ops@ =~= old(ops)@ + quantize_z(n_embd));
    }
    if m3 {
        push_plain(ops, il, n_ff, true, true);
    } else if ffn_gate.q8_1_fast && ffn_up.q8_1_fast {
        if kernels.dual_gate_up || (ffn_gate.separable && ffn_up.separable) {
            push_raw(ops, il, kernels.dual_gate_up, ffn_gate.separable, ffn_up.separable);
            push_tail(ops, il, ffn_down.q8_1_fast, n_ff);
        } else {
            push_raw(ops, il, false, ffn_gate.separable, ffn_up.separable);
            push_plain(ops, il, n_ff, false, true);
        }
    } else {
        push_plain(ops, il, n_ff, false, false);
    }
    assert(ops@ =~= old(ops)@ + ffn_ops(
        il,
        *ffn_gate,
        *ffn_up,
        *ffn_down,
        kernels.dual_gate_up,
        n_embd,
        m3,
    ));
}

/// Plans the dense block of layer `il` on the q8_1 row `Zq`, `Zd`.
pub fn ffn_swiglu_decode_pre(
    ops: &mut Vec<Op>,
    il: usize,
    ffn_gate: &GpuTensor,
    ffn_up: &GpuTensor,
    ffn_down: &GpuTensor,
    kernels: &LayerKernels,
) -> (r: Result<(), PlanError>)
    ensures
        r is Ok <==> ffn_pre_possible(*ffn_gate, *ffn_up, kernels.dual_gate_up),
        r is Ok ==> final(ops)@ == old(ops)@ + ffn_pre_ops(
            il,
            *ffn_gate,
            *ffn_up,
            *ffn_down,
            kernels.dual_gate_up,
        ),
        r matches Err(e) ==> e == PlanError::GateUpNotSeparable && final(ops)@ == old(ops)@
            + ffn_raw_ops(il, false, ffn_gate.separable, ffn_up.separable),
{
    push_raw(ops, il, kernels.dual_gate_up, ffn_gate.separable, ffn_up.separable);
    if kernels.dual_gate_up || (ffn_gate.separable && ffn_up.separable) {
        push_tail(ops, il, ffn_down.q8_1_fast, ffn_gate.out_f);
        assert(ops@ =~= old(ops)@ + ffn_pre_ops(
            il,
            *ffn_gate,
            *ffn_up,
            *ffn_down,
            kernels.dual_gate_up,
        ));
        Ok(())
    } else {
        Err(PlanError::GateUpNotSeparable)
    }
}

/// What the dense block computes of a normalized row.
pub open spec fn ffn_term(
    env: launch::Env,
    il: usize,
    m3: bool,
    z: launch::Term,
) -> launch::Term {
    launch::mm(
        env,
        w_down(il),
        launch::act(
            m3,
            launch::mm(env, w_gate(il), z),
            launch::mm(env, w_up(il), z),
        ),
    )
}

/// The fast-path flags agree with the device.
pub open spec fn ffn_flags(
    env: launch::Env,
    il: usize,
    gate: GpuTensor,
    up: GpuTensor,
    down: GpuTensor,
) -> bool {
    &&& (env.fast)(w_gate(il)) == gate.q8_1_fast
    &&& (env.fast)(w_up(il)) == up.q8_1_fast
    &&& (env.fast)(w_down(il)) == down.q8_1_fast
}

proof fn lemma_tail(
    env: launch::Env,
    s: launch::Store,
    il: usize,
    down: GpuTensor,
    n_ff: usize,
    g: launch::Term,
    u: launch::Term,
)
    requires
        (env.fast)(w_down(il)) == down.q8_1_fast,
        s[Buf::FfnGate] == seq![g],
        s[Buf::FfnUp] == seq![u],
    ensures
        launch::run(env, s, ffn_tail_ops(il, down.q8_1_fast, n_ff))[Buf::FfnOut] == seq![
            launch::mm(
                env,
                w_down(il),
                launch::act(
                    false,
                    launch::scaled(env, w_gate(il), g),
                    launch::scaled(env, w_up(il), u),
                ),
            ),
        ],
{
    let ops = ffn_tail_ops(il, down.q8_1_fast, n_ff);
    launch::lemma_run2(env, s, ops[0], ops[1]);
    assert(ops =~= seq![ops[0], ops[1]]);
    reveal(launch::step);
}

proof fn lemma_raw(
    env: launch::Env,
    s: launch::Store,
    il: usize,
    dual: bool,
    sep_gate: bool,
    sep_up: bool,
    q: launch::Term,
    d: launch::Term,
)
    requires
        s[Buf::Zq] == seq![q],
        s[Buf::Zd] == seq![d],
    ensures
        ({
            let e = launch::run(env, s, ffn_raw_ops(il, dual, sep_gate, sep_up));
            &&& e[Buf::Zq] == s[Buf::Zq]
            &&& e[Buf::Zd] == s[Buf::Zd]
            &&& e[Buf::Z] == s[Buf::Z]
            &&& (dual || sep_gate) ==> e[Buf::FfnGate] == seq![launch::mm_raw(w_gate(il), q, d)]
            &&& (dual || sep_up) ==> e[Buf::FfnUp] == seq![launch::mm_raw(w_up(il), q, d)]
        }),
{
    let ops = ffn_raw_ops(il, dual, sep_gate, sep_up);
    reveal(launch::step);
    if dual {
        launch::lemma_run1(env, s, ops[0]);
        assert(ops =~= seq![ops[0]]);
    } else if sep_gate && sep_up {
        launch::lemma_run2(env, s, ops[0], ops[1]);
        assert(ops =~= seq![ops[0], ops[1]]);
    } else if sep_gate || sep_up {
        launch::lemma_run1(env, s, ops[0]);
        assert(ops =~= seq![ops[0]]);
    } else {
        assert(ops =~= Seq::<Op>::empty());
    }
}

proof fn lemma_plain(
    env: launch::Env,
    s: launch::Store,
    il: usize,
    n_ff: usize,
    m3: bool,
    quantized: bool,
    z: launch::Term,
)
    requires
        s[Buf::Z] == seq![z],
        quantized ==> s[Buf::Zq] == seq![launch::q8_quants(z)] && s[Buf::Zd] == seq![
            launch::q8_scales(z),
        ],
    ensures
        launch::run(env, s, ffn_plain_ops(il, n_ff, m3, quantized))[Buf::FfnOut] == seq![
            ffn_term(env, il, m3, z),
        ],
{
    let ops = ffn_plain_ops(il, n_ff, m3, quantized);
    launch::lemma_run4(env, s, ops[0], ops[1], ops[2], ops[3]);
    assert(ops =~= seq![ops[0], ops[1], ops[2], ops[3]]);
    let s1 = launch::step(env, s, ops[0]);
    let s2 = launch::step(env, s1, ops[1]);
    let s3 = launch::step(env, s2, ops[2]);
    let g = launch::mm(env, w_gate(il), z);
    let u = launch::mm(env, w_up(il), z);
    reveal(launch::step);
    assert(s1[Buf::FfnGate] =~= seq![g]);
    assert(s2[Buf::FfnUp] =~= seq![u]);
    assert(s2[Buf::FfnGate] =~= seq![g]);
    assert(s3[Buf::Act] =~= seq![launch::act(m3, g, u)]);
    assert(launch::step(env, s3, ops[3])[Buf::FfnOut] =~= seq![ffn_term(env, il, m3, z)]);
}

/// Whichever kernels serve it, the dense block computes the same of a float row.
pub proof fn law_ffn_plan(
    env: launch::Env,
    s: launch::Store,
    il: usize,
    gate: GpuTensor,
    up: GpuTensor,
    down: GpuTensor,
    dual: bool,
    n_embd: usize,
    m3: bool,
    z: launch::Term,
)
    requires
        ffn_flags(env, il, gate, up, down),
        s[Buf::Z] == seq![z],
    ensures
        launch::run(env, s, ffn_ops(il, gate, up, down, dual, n_embd, m3))[Buf::FfnOut] == seq![
            ffn_term(env, il, m3, z),
        ],
{
    let n_ff = gate.out_f;
    let q = launch::q8_quants(z);
    let d = launch::q8_scales(z);
    let s1 = launch::run(env, s, quantize_z(n_embd));
    assert(s1[Buf::Zq] == seq![q] && s1[Buf::Zd] == seq![d] && s1[Buf::Z] == seq![z]) by {
        launch::lemma_run1(env, s, quantize_z(n_embd)[0]);
        assert(quantize_z(n_embd) =~= seq![quantize_z(n_embd)[0]]);
        reveal(launch::step);
    }
    if m3 {
        launch::lemma_run_concat(env, s, quantize_z(n_embd), ffn_plain_ops(il, n_ff, true, true));
        lemma_plain(env, s1, il, n_ff, true, true, z);
    } else if gate.q8_1_fast && up.q8_1_fast {
        let fused = dual || (gate.separable && up.separable);
        let raw = ffn_raw_ops(il, dual && fused, gate.separable, up.separable);
        let s2 = launch::run(env, s1, raw);
        launch::lemma_run_concat(env, s, quantize_z(n_embd), raw);
        lemma_raw(env, s1, il, dual && fused, gate.separable, up.separable, q, d);
        if fused {
            launch::lemma_run_concat(
                env,
                s,
                quantize_z(n_embd) + raw,
                ffn_tail_ops(il, down.q8_1_fast, n_ff),
            );
            lemma_tail(
                env,
                s2,
                il,
                down,
                n_ff,
                launch::mm_raw(w_gate(il), q, d),
                launch::mm_raw(w_up(il), q, d),
            );
        } else {
            launch::lemma_run_concat(
                env,
                s,
                quantize_z(n_embd) + raw,
                ffn_plain_ops(il, n_ff, false, true),
            );
            lemma_plain(env, s2, il, n_ff, false, true, z);
        }
    } else {
        lemma_plain(env, s, il, n_ff, false, false, z);
    }
}

/// The pre-quantized dense block computes the same as the block on the float row that was
/// quantized.
pub proof fn law_ffn_pre_plan(
    env: launch::Env,
    s: launch::Store,
    il: usize,
    gate: GpuTensor,
    up: GpuTensor,
    down: GpuTensor,
    dual: bool,
    z: launch::Term,
)
    requires
        ffn_flags(env, il, gate, up, down),
        gate.q8_1_fast && up.q8_1_fast,
        ffn_pre_possible(gate, up, dual),
        s[Buf::Zq] == seq![launch::q8_quants(z)],
        s[Buf::Zd] == seq![launch::q8_scales(z)],
    ensures
        launch::run(env, s, ffn_pre_ops(il, gate, up, down, dual))[Buf::FfnOut] == seq![
            ffn_term(env, il, false, z),
        ],
{
    let q = launch::q8_quants(z);
    let d = launch::q8_scales(z);
    let raw = ffn_raw_ops(il, dual, gate.separable, up.separable);
    let s2 = launch::run(env, s, raw);
    lemma_raw(env, s, il, dual, gate.separable, up.separable, q, d);
    launch::lemma_run_concat(env, s, raw, ffn_tail_ops(il, down.q8_1_fast, gate.out_f));
    lemma_tail(
        env,
        s2,
        il,
        down,
        gate.out_f,
        launch::mm_raw(w_gate(il), q, d),
        launch::mm_raw(w_up(il), q, d),
    );
}

/// Scratch that the dense block overwrites.
pub open spec fn ffn_scratch(b: Buf) -> bool {
    ||| b == Buf::Zq
    ||| b == Buf::Zd
    ||| b == Buf::FfnGate
    ||| b == Buf::FfnUp
    ||| b == Buf::Act
    ||| b == Buf::ActQ
    ||| b == Buf::ActD
    ||| b == Buf::FfnOut
}

/// The dense block writes nothing but its scratch.
pub proof fn lemma_ffn_spares(
    il: usize,
    gate: GpuTensor,
    up: GpuTensor,
    down: GpuTensor,
    dual: bool,
    n_embd: usize,
    m3: bool,
    b: Buf,
)
    requires
        !ffn_scratch(b),
    ensures
        launch::spares(ffn_ops(il, gate, up, down, dual, n_embd, m3), b),
        launch::spares(ffn_pre_ops(il, gate, up, down, dual), b),
{
    let n_ff = gate.out_f;
    let q0 = quantize_z(n_embd);
    let raw = ffn_raw_ops(il, dual, gate.separable, up.separable);
    let raw2 = ffn_raw_ops(il, false, gate.separable, up.separable);
    let tail = ffn_tail_ops(il, down.q8_1_fast, n_ff);
    assert(launch::spares(q0, b));
    assert(launch::spares(raw, b));
    assert(launch::spares(raw2, b));
    assert(launch::spares(tail, b));
    launch::lemma_spares_concat(raw, tail, b);
    launch::lemma_spares_concat(q0, raw, b);
    launch::lemma_spares_concat(q0 + raw, tail, b);
    launch::lemma_spares_concat(q0, raw2, b);
    assert forall|mm3: bool, qz: bool| launch::spares(
        #[trigger] ffn_plain_ops(il, n_ff, mm3, qz),
        b,
    ) by {}
    launch::lemma_spares_concat(q0, ffn_plain_ops(il, n_ff, true, true), b);
    launch::lemma_spares_concat(q0 + raw2, ffn_plain_ops(il, n_ff, false, true), b);
}

} // verus!
