//! What a decode step computes, and that all its forms compute it.

use vstd::prelude::*;

use crate::attention;
use crate::attention::KvMeta;
use crate::config::{Ffn, Mixer};
use crate::decode_plan;
use crate::decode_plan::{Counting, StepContext};
use crate::ffn;
use crate::launch;
use crate::launch::{Buf, Op, Slot, Weight};
use crate::recurrent;

verus! {

/// What one step depends on besides the model: the buffers at its start, the cache lengths, and
/// the rotary position.
pub ghost struct StepInput {
    pub s0: launch::Store,
    /// The sequence that the step advances.
    pub seq: usize,
    pub lens: Seq<int>,
    pub pos: launch::Term,
}

/// The normalized input of the mixer of layer `il`.
pub open spec fn mixer_in(ctx: StepContext, il: int, x: launch::Term) -> launch::Term {
    launch::rms(Weight::Layer(il as usize, Slot::AttnNorm), ctx.cfg.n_embd as nat, x)
}

pub open spec fn k_cache(inp: StepInput, il: int) -> launch::Term {
    launch::one(inp.s0, Buf::KCache { seq: inp.seq, layer: il as usize })
}

pub open spec fn v_cache(inp: StepInput, il: int) -> launch::Term {
    launch::one(inp.s0, Buf::VCache { seq: inp.seq, layer: il as usize })
}

pub open spec fn conv_ring(inp: StepInput, il: int) -> launch::Term {
    launch::one(inp.s0, Buf::Conv { seq: inp.seq, layer: il as usize })
}

pub open spec fn ssm_state(inp: StepInput, il: int) -> launch::Term {
    launch::one(inp.s0, Buf::Ssm { seq: inp.seq, layer: il as usize })
}

/// What the mixer of layer `il` makes of its normalized input.
pub open spec fn mixed(
    env: launch::Env,
    ctx: StepContext,
    inp: StepInput,
    il: int,
    h: launch::Term,
) -> launch::Term {
    match ctx.layers@[il].mixer {
        Mixer::Full(fa) => attention::full_attn_term(
            env,
            ctx.cfg,
            il as usize,
            h,
            inp.pos,
            k_cache(inp, il),
            v_cache(inp, il),
            inp.lens[il],
        ),
        Mixer::Linear(la) => recurrent::linear_attn_term(
            env,
            il as usize,
            ctx.cfg.ssm->0,
            h,
            conv_ring(inp, il),
            ssm_state(inp, il),
        ),
    }
}

/// The residual after the mixer of layer `il`.
pub open spec fn residual(
    env: launch::Env,
    ctx: StepContext,
    inp: StepInput,
    il: int,
    x: launch::Term,
) -> launch::Term {
    launch::sum(x, mixed(env, ctx, inp, il, mixer_in(ctx, il, x)))
}

/// What the feed-forward block of layer `il` makes of the residual `x1`.
pub open spec fn feed_forward(
    env: launch::Env,
    ctx: StepContext,
    il: int,
    x1: launch::Term,
) -> launch::Term {
    let z = launch::rms(
        Weight::Layer(il as usize, Slot::PostAttnNorm),
        ctx.cfg.n_embd as nat,
        x1,
    );
    match ctx.layers@[il].ffn {
        Ffn::Dense { ffn_gate, ffn_up, ffn_down } => ffn::ffn_term(
            env,
            il as usize,
            ctx.cfg.is_m3(),
            z,
        ),
        Ffn::Moe => launch::un(launch::Fun::Moe(il as nat), z),
    }
}

/// The hidden state after the first `n` layers.
pub open spec fn hidden(
    env: launch::Env,
    ctx: StepContext,
    inp: StepInput,
    x0: launch::Term,
    n: nat,
) -> launch::Term
    decreases n,
{
    if n == 0 {
        x0
    } else {
        let il = n - 1;
        let x1 = residual(env, ctx, inp, il, hidden(env, ctx, inp, x0, il as nat));
        launch::sum(x1, feed_forward(env, ctx, il, x1))
    }
}

/// The logits of a hidden state.
pub open spec fn logits(env: launch::Env, ctx: StepContext, x: launch::Term) -> launch::Term {
    launch::mm(env, Weight::Model(Slot::Output), final_norm(ctx, x))
}

pub open spec fn final_norm(ctx: StepContext, x: launch::Term) -> launch::Term {
    launch::rms(Weight::Model(Slot::OutputNorm), ctx.cfg.n_embd as nat, x)
}

/// The layer's own caches and states in `s` are those at the start of the step.
pub open spec fn fresh(ctx: StepContext, inp: StepInput, s: launch::Store, il: int) -> bool {
    let layer = il as usize;
    match ctx.layers@[il].mixer {
        Mixer::Full(_) => {
            &&& s[Buf::KCache { seq: inp.seq, layer }] == seq![k_cache(inp, il)]
            &&& s[Buf::VCache { seq: inp.seq, layer }] == seq![v_cache(inp, il)]
            &&& s[Buf::Len { seq: inp.seq, layer }] == inp.s0[Buf::Len { seq: inp.seq, layer }]
        },
        Mixer::Linear(_) => {
            &&& s[Buf::Conv { seq: inp.seq, layer }] == seq![conv_ring(inp, il)]
            &&& s[Buf::Ssm { seq: inp.seq, layer }] == seq![ssm_state(inp, il)]
        },
    }
}

/// The layer's own caches and states in `s` are those after the step, which fed the mixer `h`.
pub open spec fn advanced(
    env: launch::Env,
    ctx: StepContext,
    inp: StepInput,
    mode: Counting,
    s: launch::Store,
    il: int,
    h: launch::Term,
) -> bool {
    let layer = il as usize;
    match ctx.layers@[il].mixer {
        Mixer::Full(_) => {
            &&& s[Buf::KCache { seq: inp.seq, layer }] == seq![
                attention::appended(
                    k_cache(inp, il),
                    attention::key_term(env, ctx.cfg, layer, h, inp.pos),
                    inp.lens[il],
                ),
            ]
            &&& s[Buf::VCache { seq: inp.seq, layer }] == seq![
                attention::appended(
                    v_cache(inp, il),
                    attention::value_term(env, layer, h),
                    inp.lens[il],
                ),
            ]
            &&& s[Buf::Len { seq: inp.seq, layer }] == (if mode is Host {
                inp.s0[Buf::Len { seq: inp.seq, layer }]
            } else {
                seq![launch::Term::Int(inp.lens[il] + 1)]
            })
        },
        Mixer::Linear(_) => {
            &&& s[Buf::Conv { seq: inp.seq, layer }] == seq![
                recurrent::ring_term(env, layer, h, conv_ring(inp, il)),
            ]
            &&& s[Buf::Ssm { seq: inp.seq, layer }] == seq![
                recurrent::state_term(
                    env,
                    layer,
                    ctx.cfg.ssm->0,
                    h,
                    conv_ring(inp, il),
                    ssm_state(inp, il),
                ),
            ]
        },
    }
}

/// Model flags, caches and counters agree with the device at the start of the step: device
/// counters hold the lengths, and a captured grid has the geometry of the new length.
pub open spec fn consistent(
    env: launch::Env,
    ctx: StepContext,
    kv: Seq<Option<KvMeta>>,
    mode: Counting,
    inp: StepInput,
) -> bool {
    &&& ctx.kv_ready(kv)
    &&& inp.lens.len() == ctx.layers@.len()
    &&& ctx.layers@.len() <= usize::MAX
    &&& forall|il: int|
        #![trigger ctx.layers@[il]]
        0 <= il < ctx.layers@.len() ==> layer_consistent(env, ctx, kv[il], mode, inp, il)
}

pub open spec fn layer_consistent(
    env: launch::Env,
    ctx: StepContext,
    kv: Option<KvMeta>,
    mode: Counting,
    inp: StepInput,
    il: int,
) -> bool {
    let layer = ctx.layers@[il];
    let i = il as usize;
    &&& fresh(ctx, inp, inp.s0, il)
    &&& match layer.ffn {
        Ffn::Dense { ffn_gate, ffn_up, ffn_down } => ffn::ffn_flags(
            env,
            i,
            ffn_gate,
            ffn_up,
            ffn_down,
        ),
        Ffn::Moe => true,
    }
    &&& match layer.mixer {
        Mixer::Full(fa) => {
            &&& attention::attn_flags(env, i, fa)
            &&& match mode {
                Counting::Host => inp.lens[il] == kv->0.len,
                Counting::Device => inp.lens[il] == kv->0.len && inp.s0[Buf::Len {
                    seq: inp.seq,
                    layer: i,
                }] == seq![launch::Term::Int(inp.lens[il])],
                Counting::Captured(b) => (env.geometry)(b as int) == (env.geometry)(
                    inp.lens[il] + 1,
                ) && inp.s0[Buf::Len { seq: inp.seq, layer: i }] == seq![
                    launch::Term::Int(inp.lens[il]),
                ],
            }
        },
        Mixer::Linear(la) => recurrent::linear_flags(env, i, la, layer.kernels),
    }
}

/// Buffers that the work on layer `il` leaves alone.
pub open spec fn foreign(il: int, b: Buf) -> bool {
    match b {
        Buf::X | Buf::Pos | Buf::Token | Buf::HSeed | Buf::Logits => true,
        Buf::Aux(_) => true,
        Buf::KCache { seq, layer } => !(seq == 0 && layer == il),
        Buf::VCache { seq, layer } => !(seq == 0 && layer == il),
        Buf::Len { seq, layer } => !(seq == 0 && layer == il),
        Buf::Conv { seq, layer } => !(seq == 0 && layer == il),
        Buf::Ssm { seq, layer } => !(seq == 0 && layer == il),
        _ => false,
    }
}

proof fn lemma_mixer(
    env: launch::Env,
    ctx: StepContext,
    kv: Option<KvMeta>,
    mode: Counting,
    inp: StepInput,
    il: int,
    s: launch::Store,
    pre: bool,
    h: launch::Term,
)
    requires
        inp.seq == 0,
        0 <= il < ctx.layers@.len() <= usize::MAX,
        layer_consistent(env, ctx, kv, mode, inp, il),
        ctx.layers@[il].mixer is Full ==> kv is Some && kv->0.has_room(),
        fresh(ctx, inp, s, il),
        attention::feeds(s, decode_plan::row_io(), pre, h),
        pre ==> ctx.layers@[il].mixer.in_fast(),
        s[Buf::Pos] == seq![inp.pos],
    ensures
        ({
            let e = launch::run(env, s, decode_plan::mixer_ops(ctx, il, kv, mode, pre));
            &&& e[Buf::Mixed] == seq![mixed(env, ctx, inp, il, h)]
            &&& advanced(env, ctx, inp, mode, e, il, h)
            &&& forall|b: Buf| foreign(il, b) ==> #[trigger] e[b] == s[b]
        }),
{
    let layer = ctx.layers@[il];
    let i = il as usize;
    let io = decode_plan::row_io();
    let e = launch::run(env, s, decode_plan::mixer_ops(ctx, il, kv, mode, pre));
    match layer.mixer {
        Mixer::Full(fa) => {
            match mode {
                Counting::Host => {
                    attention::law_full_attn_plan(
                        env,
                        s,
                        ctx.cfg,
                        fa,
                        layer.kernels.fused3_qkv,
                        0,
                        i,
                        kv->0,
                        pre,
                        ctx.prefetch,
                        io,
                        h,
                        inp.pos,
                        k_cache(inp, il),
                        v_cache(inp, il),
                    );
                },
                Counting::Device => {
                    attention::law_full_attn_counted_plan(
                        env,
                        s,
                        ctx.cfg,
                        fa,
                        layer.kernels.fused3_qkv,
                        0,
                        i,
                        kv->0,
                        pre,
                        None,
                        io,
                        h,
                        inp.pos,
                        k_cache(inp, il),
                        v_cache(inp, il),
                        inp.lens[il],
                    );
                },
                Counting::Captured(b) => {
                    attention::law_full_attn_counted_plan(
                        env,
                        s,
                        ctx.cfg,
                        fa,
                        layer.kernels.fused3_qkv,
                        0,
                        i,
                        kv->0,
                        pre,
                        Some(b),
                        io,
                        h,
                        inp.pos,
                        k_cache(inp, il),
                        v_cache(inp, il),
                        inp.lens[il],
                    );
                },
            }
            assert forall|b: Buf| foreign(il, b) implies #[trigger] e[b] == s[b] by {
                assert(attention::attn_frame(s, e, io, 0, i));
            }
        },
        Mixer::Linear(la) => {
            recurrent::law_linear_attn_plan(
                env,
                s,
                0,
                i,
                la,
                layer.kernels,
                ctx.cfg.ssm->0,
                ctx.cfg.n_embd,
                pre,
                mode is Captured,
                io,
                h,
                conv_ring(inp, il),
                ssm_state(inp, il),
            );
            assert forall|b: Buf| foreign(il, b) implies #[trigger] e[b] == s[b] by {
                assert(recurrent::linear_frame(s, e, io, 0, i));
            }
        },
    }
}

proof fn lemma_attn_in(
    env: launch::Env,
    ctx: StepContext,
    kv: Option<KvMeta>,
    mode: Counting,
    inp: StepInput,
    il: int,
    s: launch::Store,
    x: launch::Term,
)
    requires
        inp.seq == 0,
        0 <= il < ctx.layers@.len() <= usize::MAX,
        layer_consistent(env, ctx, kv, mode, inp, il),
        ctx.layers@[il].mixer is Full ==> kv is Some && kv->0.has_room(),
        fresh(ctx, inp, s, il),
        s[Buf::X] == seq![x],
        s[Buf::Pos] == seq![inp.pos],
    ensures
        ({
            let e = launch::run(env, s, decode_plan::attn_in_ops(ctx, il, kv, mode));
            let h = mixer_in(ctx, il, x);
            &&& e[Buf::Mixed] == seq![mixed(env, ctx, inp, il, h)]
            &&& advanced(env, ctx, inp, mode, e, il, h)
            &&& forall|b: Buf| foreign(il, b) ==> #[trigger] e[b] == s[b]
        }),
{
    let h = mixer_in(ctx, il, x);
    let pre = ctx.fuses_in(il);
    let norm = decode_plan::norm_in_ops(ctx, il);
    let rest = decode_plan::mixer_ops(ctx, il, kv, mode, pre);
    let s1 = launch::run(env, s, norm);
    launch::lemma_run_concat(env, s, norm, rest);
    launch::lemma_run1(env, s, norm[0]);
    assert(norm =~= seq![norm[0]]);
    assert(attention::feeds(s1, decode_plan::row_io(), pre, h)) by {
        reveal(launch::step);
        if pre {
            assert(s1[Buf::Hq] =~= seq![launch::q8_quants(h)]);
            assert(s1[Buf::Hd] =~= seq![launch::q8_scales(h)]);
        } else {
            assert(s1[Buf::H] =~= seq![h]);
        }
    }
    assert forall|b: Buf| b != Buf::H && b != Buf::Hq && b != Buf::Hd implies #[trigger] s1[b]
        == s[b] by {
        launch::lemma_run_frame(env, s, norm, b);
    }
    assert(fresh(ctx, inp, s1, il));
    lemma_mixer(env, ctx, kv, mode, inp, il, s1, pre, h);
    let e = launch::run(env, s1, rest);
    assert forall|b: Buf| foreign(il, b) implies #[trigger] e[b] == s[b] by {
        assert(s1[b] == s[b]);
    }
}

proof fn lemma_residual(
    env: launch::Env,
    ctx: StepContext,
    kv: Option<KvMeta>,
    mode: Counting,
    inp: StepInput,
    il: int,
    s: launch::Store,
    x: launch::Term,
    m: launch::Term,
)
    requires
        0 <= il < ctx.layers@.len() <= usize::MAX,
        layer_consistent(env, ctx, kv, mode, inp, il),
        ctx.obstacle(il) is None,
        s[Buf::X] == seq![x],
        s[Buf::Mixed] == seq![m],
    ensures
        ({
            let e = launch::run(env, s, decode_plan::residual_ops(ctx, il));
            let x1 = launch::sum(x, m);
            &&& e[Buf::X1] == seq![x1]
            &&& e[Buf::FfnOut] == seq![feed_forward(env, ctx, il, x1)]
            &&& forall|b: Buf|
                !ffn::ffn_scratch(b) && b != Buf::X1 && b != Buf::Z ==> #[trigger] e[b] == s[b]
        }),
{
    let layer = ctx.layers@[il];
    let i = il as usize;
    let ops = decode_plan::residual_ops(ctx, il);
    let e = launch::run(env, s, ops);
    let x1 = launch::sum(x, m);
    let z = launch::rms(
        Weight::Layer(i, Slot::PostAttnNorm),
        ctx.cfg.n_embd as nat,
        x1,
    );
    let first = seq![ops[0]];
    let rest = ops.skip(1);
    assert(ops =~= first + rest);
    launch::lemma_run_concat(env, s, first, rest);
    launch::lemma_run1(env, s, ops[0]);
    let s1 = launch::run(env, s, first);
    assert forall|b: Buf|
        !ffn::ffn_scratch(b) && b != Buf::X1 && b != Buf::Z implies #[trigger] s1[b] == s[b] by {
        launch::lemma_run_frame(env, s, first, b);
    }
    match layer.ffn {
        Ffn::Dense { ffn_gate, ffn_up, ffn_down } => {
            let dual = layer.kernels.dual_gate_up;
            let m3 = ctx.cfg.is_m3();
            let n_embd = ctx.cfg.n_embd;
            if ctx.fuses_ffn(il) {
                assert(rest =~= ffn::ffn_pre_ops(i, ffn_gate, ffn_up, ffn_down, dual));
                assert(s1[Buf::X1] == seq![x1] && s1[Buf::Zq] == seq![launch::q8_quants(z)]
                    && s1[Buf::Zd] == seq![launch::q8_scales(z)]) by {
                    reveal(launch::step);
                    assert(s1[Buf::X1] =~= seq![x1]);
                    assert(s1[Buf::Zq] =~= seq![launch::q8_quants(z)]);
                    assert(s1[Buf::Zd] =~= seq![launch::q8_scales(z)]);
                }
                ffn::law_ffn_pre_plan(env, s1, i, ffn_gate, ffn_up, ffn_down, dual, z);
            } else {
                assert(rest =~= ffn::ffn_ops(i, ffn_gate, ffn_up, ffn_down, dual, n_embd, m3));
                assert(s1[Buf::X1] == seq![x1] && s1[Buf::Z] == seq![z]) by {
                    reveal(launch::step);
                    assert(s1[Buf::X1] =~= seq![x1]);
                    assert(s1[Buf::Z] =~= seq![z]);
                }
                ffn::law_ffn_plan(env, s1, i, ffn_gate, ffn_up, ffn_down, dual, n_embd, m3, z);
            }
            assert forall|b: Buf| !ffn::ffn_scratch(b) implies #[trigger] e[b] == s1[b] by {
                ffn::lemma_ffn_spares(i, ffn_gate, ffn_up, ffn_down, dual, n_embd, m3, b);
                launch::lemma_run_frame(env, s1, rest, b);
            }
        },
        Ffn::Moe => {
            launch::lemma_run1(env, s1, ops[1]);
            assert(rest =~= seq![ops[1]]);
            assert(s1[Buf::X1] == seq![x1] && s1[Buf::Z] == seq![z] && e[Buf::FfnOut] == seq![
                launch::un(launch::Fun::Moe(i as nat), z),
            ]) by {
                reveal(launch::step);
                assert(s1[Buf::X1] =~= seq![x1]);
                assert(s1[Buf::Z] =~= seq![z]);
                assert(e[Buf::FfnOut] =~= seq![launch::un(launch::Fun::Moe(i as nat), z)]);
            }
            assert forall|b: Buf| !ffn::ffn_scratch(b) implies #[trigger] e[b] == s1[b] by {
                launch::lemma_run_frame(env, s1, rest, b);
            }
        },
    }
    assert(e[Buf::X1] == s1[Buf::X1]);
    assert forall|b: Buf|
        !ffn::ffn_scratch(b) && b != Buf::X1 && b != Buf::Z implies #[trigger] e[b] == s[b] by {
        assert(e[b] == s1[b]);
    }
}

/// The first `n` layers have advanced, the others have not.
pub open spec fn progress(
    env: launch::Env,
    ctx: StepContext,
    inp: StepInput,
    mode: Counting,
    x0: launch::Term,
    s: launch::Store,
    n: int,
) -> bool {
    &&& forall|il: int|
        #![trigger ctx.layers@[il]]
        0 <= il < n && il < ctx.layers@.len() ==> advanced(
            env,
            ctx,
            inp,
            mode,
            s,
            il,
            mixer_in(ctx, il, hidden(env, ctx, inp, x0, il as nat)),
        )
    &&& forall|il: int|
        #![trigger ctx.layers@[il]]
        n <= il < ctx.layers@.len() ==> fresh(ctx, inp, s, il)
}

proof fn lemma_progress_step(
    env: launch::Env,
    ctx: StepContext,
    inp: StepInput,
    mode: Counting,
    x0: launch::Term,
    s: launch::Store,
    e: launch::Store,
    il: int,
)
    requires
        inp.seq == 0,
        0 <= il < ctx.layers@.len() <= usize::MAX,
        progress(env, ctx, inp, mode, x0, s, il),
        advanced(
            env,
            ctx,
            inp,
            mode,
            e,
            il,
            mixer_in(ctx, il, hidden(env, ctx, inp, x0, il as nat)),
        ),
        forall|b: Buf| foreign(il, b) && b != Buf::X ==> #[trigger] e[b] == s[b],
    ensures
        progress(env, ctx, inp, mode, x0, e, il + 1),
{
    assert forall|j: int|
        #![trigger ctx.layers@[j]]
        0 <= j < il + 1 && j < ctx.layers@.len() implies advanced(
        env,
        ctx,
        inp,
        mode,
        e,
        j,
        mixer_in(ctx, j, hidden(env, ctx, inp, x0, j as nat)),
    ) by {
        if j < il {
            let layer = j as usize;
            assert(foreign(il, Buf::KCache { seq: 0, layer }));
            assert(foreign(il, Buf::VCache { seq: 0, layer }));
            assert(foreign(il, Buf::Len { seq: 0, layer }));
            assert(foreign(il, Buf::Conv { seq: 0, layer }));
            assert(foreign(il, Buf::Ssm { seq: 0, layer }));
        }
    }
    assert forall|j: int|
        #![trigger ctx.layers@[j]]
        il + 1 <= j < ctx.layers@.len() implies fresh(ctx, inp, e, j) by {
        let layer = j as usize;
        assert(foreign(il, Buf::KCache { seq: 0, layer }));
        assert(foreign(il, Buf::VCache { seq: 0, layer }));
        assert(foreign(il, Buf::Len { seq: 0, layer }));
        assert(foreign(il, Buf::Conv { seq: 0, layer }));
        assert(foreign(il, Buf::Ssm { seq: 0, layer }));
    }
}

proof fn lemma_progress_same(
    env: launch::Env,
    ctx: StepContext,
    inp: StepInput,
    mode: Counting,
    x0: launch::Term,
    s: launch::Store,
    e: launch::Store,
    n: int,
)
    requires
        inp.seq == 0,
        progress(env, ctx, inp, mode, x0, s, n),
        forall|b: Buf| is_state(b) ==> #[trigger] e[b] == s[b],
    ensures
        progress(env, ctx, inp, mode, x0, e, n),
{
    assert forall|j: int| #![trigger ctx.layers@[j]] 0 <= j < ctx.layers@.len() implies {
        let layer = j as usize;
        &&& e[Buf::KCache { seq: 0, layer }] == s[Buf::KCache { seq: 0, layer }]
        &&& e[Buf::VCache { seq: 0, layer }] == s[Buf::VCache { seq: 0, layer }]
        &&& e[Buf::Len { seq: 0, layer }] == s[Buf::Len { seq: 0, layer }]
        &&& e[Buf::Conv { seq: 0, layer }] == s[Buf::Conv { seq: 0, layer }]
        &&& e[Buf::Ssm { seq: 0, layer }] == s[Buf::Ssm { seq: 0, layer }]
    } by {
        let layer = j as usize;
        assert(is_state(Buf::KCache { seq: 0, layer }));
        assert(is_state(Buf::VCache { seq: 0, layer }));
        assert(is_state(Buf::Len { seq: 0, layer }));
        assert(is_state(Buf::Conv { seq: 0, layer }));
        assert(is_state(Buf::Ssm { seq: 0, layer }));
    }
}

/// Caches, counters and recurrent states.
pub open spec fn is_state(b: Buf) -> bool {
    match b {
        Buf::KCache { .. } | Buf::VCache { .. } | Buf::Len { .. } => true,
        Buf::Conv { .. } | Buf::Ssm { .. } => true,
        _ => false,
    }
}

/// One layer of the plain chain.
proof fn lemma_chain_layer(
    env: launch::Env,
    ctx: StepContext,
    kv: Option<KvMeta>,
    mode: Counting,
    inp: StepInput,
    s0: launch::Store,
    x: launch::Term,
    il: int,
)
    requires
        inp.seq == 0,
        0 <= il < ctx.layers@.len() <= usize::MAX,
        layer_consistent(env, ctx, kv, mode, inp, il),
        ctx.layers@[il].mixer is Full ==> kv is Some && kv->0.has_room(),
        ctx.obstacle(il) is None,
        fresh(ctx, inp, s0, il),
        s0[Buf::X] == seq![x],
        s0[Buf::Pos] == seq![inp.pos],
    ensures
        ({
            let e = launch::run(
                env,
                s0,
                decode_plan::attn_in_ops(ctx, il, kv, mode) + decode_plan::residual_ops(ctx, il)
                    + decode_plan::close_ops(ctx.cfg.n_embd),
            );
            let x1 = residual(env, ctx, inp, il, x);
            &&& e[Buf::X] == seq![launch::sum(x1, feed_forward(env, ctx, il, x1))]
            &&& advanced(env, ctx, inp, mode, e, il, mixer_in(ctx, il, x))
            &&& forall|b: Buf| foreign(il, b) && b != Buf::X ==> #[trigger] e[b] == s0[b]
        }),
{
    let attn = decode_plan::attn_in_ops(ctx, il, kv, mode);
    let resid = decode_plan::residual_ops(ctx, il);
    let close = decode_plan::close_ops(ctx.cfg.n_embd);
    launch::lemma_run_concat(env, s0, attn, resid);
    launch::lemma_run_concat(env, s0, attn + resid, close);
    let s1 = launch::run(env, s0, attn);
    let s2 = launch::run(env, s1, resid);
    let s3 = launch::run(env, s2, close);
    let h = mixer_in(ctx, il, x);
    lemma_attn_in(env, ctx, kv, mode, inp, il, s0, x);
    assert(s1[Buf::X] == s0[Buf::X]);
    lemma_residual(env, ctx, kv, mode, inp, il, s1, x, mixed(env, ctx, inp, il, h));
    let x1 = residual(env, ctx, inp, il, x);
    launch::lemma_run1(env, s2, close[0]);
    assert(close =~= seq![close[0]]);
    assert(s3[Buf::X] == seq![launch::sum(x1, feed_forward(env, ctx, il, x1))]) by {
        reveal(launch::step);
        assert(s3[Buf::X] =~= seq![launch::sum(x1, feed_forward(env, ctx, il, x1))]);
    }
    assert forall|b: Buf| b != Buf::X implies #[trigger] s3[b] == s2[b] by {
        launch::lemma_run_frame(env, s2, close, b);
    }
    assert forall|b: Buf| foreign(il, b) && b != Buf::X implies #[trigger] s3[b] == s0[b] by {
        assert(s2[b] == s1[b]);
        assert(s1[b] == s0[b]);
    }
    let layer = il as usize;
    assert(s3[Buf::KCache { seq: 0, layer }] == s1[Buf::KCache { seq: 0, layer }]);
    assert(s3[Buf::VCache { seq: 0, layer }] == s1[Buf::VCache { seq: 0, layer }]);
    assert(s3[Buf::Len { seq: 0, layer }] == s1[Buf::Len { seq: 0, layer }]);
    assert(s3[Buf::Conv { seq: 0, layer }] == s1[Buf::Conv { seq: 0, layer }]);
    assert(s3[Buf::Ssm { seq: 0, layer }] == s1[Buf::Ssm { seq: 0, layer }]);
}

/// The plain chain, layer by layer: the hidden state is where it should be, caches and states
/// have advanced so far, and the outputs of the layers in `aux` are kept in that order.
proof fn lemma_chain(
    env: launch::Env,
    ctx: StepContext,
    kv: Seq<Option<KvMeta>>,
    mode: Counting,
    aux: Seq<usize>,
    inp: StepInput,
    s: launch::Store,
    x0: launch::Term,
    n: nat,
)
    requires
        inp.seq == 0,
        consistent(env, ctx, kv, mode, inp),
        n <= ctx.layers@.len(),
        aux.len() <= usize::MAX,
        ctx.first_obstacle(n) is None,
        progress(env, ctx, inp, mode, x0, s, 0),
        s[Buf::X] == seq![x0],
        s[Buf::Pos] == seq![inp.pos],
    ensures
        ({
            let e = launch::run(env, s, decode_plan::chain_ops(ctx, kv, mode, aux, n));
            &&& e[Buf::X] == seq![hidden(env, ctx, inp, x0, n)]
            &&& e[Buf::Pos] == s[Buf::Pos]
            &&& e[Buf::Token] == s[Buf::Token]
            &&& progress(env, ctx, inp, mode, x0, e, n as int)
            &&& forall|j: int|
                0 <= j < aux.len() && aux[j] < n ==> #[trigger] e[Buf::Aux(j as usize)] == seq![
                    hidden(env, ctx, inp, x0, (aux[j] + 1) as nat),
                ]
        }),
    decreases n,
{
    if n > 0 {
        let il = n - 1;
        lemma_chain(env, ctx, kv, mode, aux, inp, s, x0, il as nat);
        let before = decode_plan::chain_ops(ctx, kv, mode, aux, il as nat);
        let body = decode_plan::attn_in_ops(ctx, il, kv[il], mode) + decode_plan::residual_ops(
            ctx,
            il,
        ) + decode_plan::close_ops(ctx.cfg.n_embd);
        let keep = decode_plan::keep_ops(aux, il, aux.len());
        launch::lemma_run_concat(env, s, before, body + keep);
        let s0 = launch::run(env, s, before);
        launch::lemma_run_concat(env, s0, body, keep);
        let s3 = launch::run(env, s0, body);
        let s4 = launch::run(env, s3, keep);
        let x = hidden(env, ctx, inp, x0, il as nat);
        assert(layer_consistent(env, ctx, kv[il], mode, inp, il) && fresh(ctx, inp, s0, il)) by {
            assert(ctx.layers@[il] == ctx.layers@[il]);
        }
        lemma_chain_layer(env, ctx, kv[il], mode, inp, s0, x, il);
        lemma_progress_step(env, ctx, inp, mode, x0, s0, s3, il);
        lemma_keep(env, s3, aux, il, aux.len());
        lemma_progress_same(env, ctx, inp, mode, x0, s3, s4, n as int);
        assert forall|j: int| 0 <= j < aux.len() && aux[j] < n implies
            #[trigger] s4[Buf::Aux(j as usize)] == seq![
            hidden(env, ctx, inp, x0, (aux[j] + 1) as nat),
        ] by {
            let b = Buf::Aux(j as usize);
            if aux[j] != il {
                assert(s4[b] == s3[b]);
                assert(s3[b] == s0[b]);
            }
        }
    }
}

/// Keeping a layer's output fills the buffers of the places that ask for it, and no other.
proof fn lemma_keep(env: launch::Env, s: launch::Store, aux: Seq<usize>, il: int, m: nat)
    requires
        m <= aux.len() <= usize::MAX,
    ensures
        ({
            let e = launch::run(env, s, decode_plan::keep_ops(aux, il, m));
            &&& forall|j: int|
                0 <= j < m && aux[j] == il ==> #[trigger] e[Buf::Aux(j as usize)] == s[Buf::X]
            &&& forall|j: int|
                0 <= j < aux.len() && (j >= m || aux[j] != il) ==> #[trigger] e[Buf::Aux(
                    j as usize,
                )] == s[Buf::Aux(j as usize)]
            &&& forall|b: Buf| !(b is Aux) ==> #[trigger] e[b] == s[b]
        }),
    decreases m,
{
    if m > 0 {
        lemma_keep(env, s, aux, il, (m - 1) as nat);
        let before = decode_plan::keep_ops(aux, il, (m - 1) as nat);
        if aux[m - 1] == il {
            let op = Op::Clone { src: Buf::X, dst: Buf::Aux((m - 1) as usize) };
            launch::lemma_run_concat(env, s, before, seq![op]);
            let e0 = launch::run(env, s, before);
            launch::lemma_run1(env, e0, op);
            let e = launch::run(env, e0, seq![op]);
            assert(e == e0.insert(Buf::Aux((m - 1) as usize), e0[Buf::X])) by {
                reveal(launch::step);
            }
            assert forall|j: int|
                0 <= j < aux.len() && (j >= m || aux[j] != il) implies #[trigger] e[Buf::Aux(
                j as usize,
            )] == s[Buf::Aux(j as usize)] by {
                assert(e0[Buf::Aux(j as usize)] == s[Buf::Aux(j as usize)]);
            }
            assert forall|j: int|
                0 <= j < m && aux[j] == il implies #[trigger] e[Buf::Aux(j as usize)]
                == s[Buf::X] by {
                if j < m - 1 {
                    assert(e0[Buf::Aux(j as usize)] == s[Buf::X]);
                }
            }
        } else {
            assert(decode_plan::keep_ops(aux, il, m) =~= before);
        }
    }
}

/// The fused chain, layer by layer: the parts of the hidden state that the next layer will sum
/// are where they should be.
proof fn lemma_fused(
    env: launch::Env,
    ctx: StepContext,
    kv: Seq<Option<KvMeta>>,
    inp: StepInput,
    s: launch::Store,
    x0: launch::Term,
    n: nat,
)
    requires
        inp.seq == 0,
        consistent(env, ctx, kv, Counting::Host, inp),
        n <= ctx.layers@.len(),
        ctx.first_obstacle(n) is None,
        progress(env, ctx, inp, Counting::Host, x0, s, 0),
        s[Buf::X] == seq![x0],
        s[Buf::Pos] == seq![inp.pos],
    ensures
        ({
            let e = launch::run(env, s, decode_plan::fused_ops(ctx, kv, n));
            &&& n == 0 ==> e[Buf::X] == seq![x0]
            &&& n > 0 ==> {
                let x1 = residual(env, ctx, inp, n - 1, hidden(env, ctx, inp, x0, (n - 1) as nat));
                &&& e[Buf::X1] == seq![x1]
                &&& e[Buf::FfnOut] == seq![feed_forward(env, ctx, n - 1, x1)]
            }
            &&& e[Buf::Pos] == s[Buf::Pos]
            &&& progress(env, ctx, inp, Counting::Host, x0, e, n as int)
        }),
    decreases n,
{
    if n > 0 {
        let il = n - 1;
        let mode = Counting::Host;
        lemma_fused(env, ctx, kv, inp, s, x0, il as nat);
        let before = decode_plan::fused_ops(ctx, kv, il as nat);
        let open = decode_plan::open_ops(ctx, kv[il], il);
        let resid = decode_plan::residual_ops(ctx, il);
        launch::lemma_run_concat(env, s, before, open + resid);
        let s0 = launch::run(env, s, before);
        launch::lemma_run_concat(env, s0, open, resid);
        let s2 = launch::run(env, s0, open);
        let s3 = launch::run(env, s2, resid);
        let x = hidden(env, ctx, inp, x0, il as nat);
        let h = mixer_in(ctx, il, x);
        assert(layer_consistent(env, ctx, kv[il], mode, inp, il)) by {
            assert(ctx.layers@[il] == ctx.layers@[il]);
        }
        assert(fresh(ctx, inp, s0, il)) by {
            assert(ctx.layers@[il] == ctx.layers@[il]);
        }
        lemma_open(env, ctx, kv[il], inp, il, s0, x0);
        lemma_residual(
            env,
            ctx,
            kv[il],
            mode,
            inp,
            il,
            s2,
            x,
            mixed(env, ctx, inp, il, h),
        );
        assert forall|b: Buf| foreign(il, b) && b != Buf::X implies #[trigger] s3[b] == s0[b] by {
            assert(s3[b] == s2[b]);
            assert(s2[b] == s0[b]);
        }
        assert(advanced(env, ctx, inp, mode, s3, il, h)) by {
            let layer = il as usize;
            assert(s3[Buf::KCache { seq: 0, layer }] == s2[Buf::KCache { seq: 0, layer }]);
            assert(s3[Buf::VCache { seq: 0, layer }] == s2[Buf::VCache { seq: 0, layer }]);
            assert(s3[Buf::Len { seq: 0, layer }] == s2[Buf::Len { seq: 0, layer }]);
            assert(s3[Buf::Conv { seq: 0, layer }] == s2[Buf::Conv { seq: 0, layer }]);
            assert(s3[Buf::Ssm { seq: 0, layer }] == s2[Buf::Ssm { seq: 0, layer }]);
        }
        lemma_progress_step(env, ctx, inp, mode, x0, s0, s3, il);
    }
}

proof fn lemma_open(
    env: launch::Env,
    ctx: StepContext,
    kv: Option<KvMeta>,
    inp: StepInput,
    il: int,
    s: launch::Store,
    x0: launch::Term,
)
    requires
        inp.seq == 0,
        0 <= il < ctx.layers@.len() <= usize::MAX,
        layer_consistent(env, ctx, kv, Counting::Host, inp, il),
        ctx.layers@[il].mixer is Full ==> kv is Some && kv->0.has_room(),
        fresh(ctx, inp, s, il),
        s[Buf::Pos] == seq![inp.pos],
        il == 0 ==> s[Buf::X] == seq![x0],
        il > 0 ==> {
            let x1 = residual(env, ctx, inp, il - 1, hidden(env, ctx, inp, x0, (il - 1) as nat));
            &&& s[Buf::X1] == seq![x1]
            &&& s[Buf::FfnOut] == seq![feed_forward(env, ctx, il - 1, x1)]
        },
    ensures
        ({
            let e = launch::run(env, s, decode_plan::open_ops(ctx, kv, il));
            let x = hidden(env, ctx, inp, x0, il as nat);
            let h = mixer_in(ctx, il, x);
            &&& e[Buf::X] == seq![x]
            &&& e[Buf::Mixed] == seq![mixed(env, ctx, inp, il, h)]
            &&& advanced(env, ctx, inp, Counting::Host, e, il, h)
            &&& forall|b: Buf| foreign(il, b) && b != Buf::X ==> #[trigger] e[b] == s[b]
        }),
{
    let mode = Counting::Host;
    let x = hidden(env, ctx, inp, x0, il as nat);
    let h = mixer_in(ctx, il, x);
    let ops = decode_plan::open_ops(ctx, kv, il);
    let e = launch::run(env, s, ops);
    if il == 0 {
        lemma_attn_in(env, ctx, kv, mode, inp, il, s, x0);
    } else {
        let x1 = residual(env, ctx, inp, il - 1, hidden(env, ctx, inp, x0, (il - 1) as nat));
        let f = feed_forward(env, ctx, il - 1, x1);
        assert(x == launch::sum(x1, f));
        let first = seq![ops[0]];
        let rest = ops.skip(1);
        assert(ops =~= first + rest);
        launch::lemma_run_concat(env, s, first, rest);
        launch::lemma_run1(env, s, ops[0]);
        let s1 = launch::run(env, s, first);
        assert forall|b: Buf|
            b != Buf::X && b != Buf::Hq && b != Buf::Hd implies #[trigger] s1[b] == s[b] by {
            launch::lemma_run_frame(env, s, first, b);
        }
        assert(s1[Buf::X] == seq![x]) by {
            reveal(launch::step);
            assert(s1[Buf::X] =~= seq![x]);
        }
        assert(fresh(ctx, inp, s1, il));
        if ctx.fuses_in(il) {
            assert(rest =~= decode_plan::mixer_ops(ctx, il, kv, mode, true));
            assert(attention::feeds(s1, decode_plan::row_io(), true, h)) by {
                reveal(launch::step);
                assert(s1[Buf::Hq] =~= seq![launch::q8_quants(h)]);
                assert(s1[Buf::Hd] =~= seq![launch::q8_scales(h)]);
            }
            lemma_mixer(env, ctx, kv, mode, inp, il, s1, true, h);
        } else {
            assert(rest =~= decode_plan::attn_in_ops(ctx, il, kv, mode));
            lemma_attn_in(env, ctx, kv, mode, inp, il, s1, x);
        }
        assert(e[Buf::X] == s1[Buf::X]);
        assert forall|b: Buf| foreign(il, b) && b != Buf::X implies #[trigger] e[b] == s[b] by {
            assert(e[b] == s1[b]);
            assert(s1[b] == s[b]);
        }
    }
}

/// The store after a step whose input came from the host.
pub open spec fn embedded(token: u32) -> launch::Term {
    launch::un(launch::Fun::Embed, launch::Term::Int(token as int))
}

/// Position and embedding of a token that the host knows.
pub proof fn lemma_host_input(env: launch::Env, s: launch::Store, pos: usize, token: u32, dim: usize)
    ensures
        ({
            let e = launch::run(env, s, decode_plan::host_input_ops(pos, token, dim));
            &&& e[Buf::X] == seq![embedded(token)]
            &&& e[Buf::Pos] == seq![launch::Term::Int(pos as int)]
            &&& forall|b: Buf| b != Buf::X && b != Buf::Pos ==> #[trigger] e[b] == s[b]
        }),
{
    let ops = decode_plan::host_input_ops(pos, token, dim);
    launch::lemma_run4(env, s, ops[0], ops[1], ops[2], ops[3]);
    assert(ops =~= seq![ops[0], ops[1], ops[2], ops[3]]);
    let e = launch::run(env, s, ops);
    assert(e[Buf::X] == seq![embedded(token)] && e[Buf::Pos] == seq![
        launch::Term::Int(pos as int),
    ]) by {
        reveal(launch::step);
        assert(e[Buf::X] =~= seq![embedded(token)]);
        assert(e[Buf::Pos] =~= seq![launch::Term::Int(pos as int)]);
    }
    assert forall|b: Buf| b != Buf::X && b != Buf::Pos implies #[trigger] e[b] == s[b] by {
        launch::lemma_run_frame(env, s, ops, b);
    }
}

proof fn lemma_start(
    env: launch::Env,
    ctx: StepContext,
    kv: Seq<Option<KvMeta>>,
    mode: Counting,
    inp: StepInput,
    s: launch::Store,
    x0: launch::Term,
)
    requires
        inp.seq == 0,
        consistent(env, ctx, kv, mode, inp),
        forall|b: Buf| is_state(b) ==> #[trigger] s[b] == inp.s0[b],
    ensures
        progress(env, ctx, inp, mode, x0, s, 0),
{
    assert forall|il: int| #![trigger ctx.layers@[il]] 0 <= il < ctx.layers@.len() implies fresh(
        ctx,
        inp,
        s,
        il,
    ) by {
        assert(layer_consistent(env, ctx, kv[il], mode, inp, il));
        let layer = il as usize;
        assert(is_state(Buf::KCache { seq: 0, layer }));
        assert(is_state(Buf::VCache { seq: 0, layer }));
        assert(is_state(Buf::Len { seq: 0, layer }));
        assert(is_state(Buf::Conv { seq: 0, layer }));
        assert(is_state(Buf::Ssm { seq: 0, layer }));
    }
}

proof fn lemma_seed_and_head(
    env: launch::Env,
    ctx: StepContext,
    s: launch::Store,
    x: launch::Term,
    hpost: bool,
)
    requires
        s[Buf::X] == seq![x],
    ensures
        ({
            let seed = Op::Clone {
                src: if hpost {
                    Buf::Hn
                } else {
                    Buf::X
                },
                dst: Buf::HSeed,
            };
            let s1 = launch::run(env, s, decode_plan::out_norm_ops(ctx.cfg.n_embd));
            let e = launch::run(env, s1, seq![seed] + decode_plan::lm_head_ops());
            &&& e[Buf::Logits] == seq![logits(env, ctx, x)]
            &&& e[Buf::HSeed] == seq![
                if hpost {
                    final_norm(ctx, x)
                } else {
                    x
                },
            ]
        }),
{
    let seed = Op::Clone {
        src: if hpost {
            Buf::Hn
        } else {
            Buf::X
        },
        dst: Buf::HSeed,
    };
    let norm = decode_plan::out_norm_ops(ctx.cfg.n_embd);
    let tail = seq![seed] + decode_plan::lm_head_ops();
    launch::lemma_run1(env, s, norm[0]);
    assert(norm =~= seq![norm[0]]);
    let s1 = launch::run(env, s, norm);
    launch::lemma_run2(env, s1, tail[0], tail[1]);
    assert(tail =~= seq![tail[0], tail[1]]);
    let e = launch::run(env, s1, tail);
    reveal(launch::step);
    assert(s1[Buf::Hn] =~= seq![final_norm(ctx, x)]);
    assert(s1[Buf::X] == seq![x]);
    assert(e[Buf::Logits] =~= seq![logits(env, ctx, x)]);
}

/// The step with the fused chain computes the logits of the trunk's hidden state, keeps that
/// state, and advances every cache and recurrent state.
pub proof fn law_step_h(
    env: launch::Env,
    ctx: StepContext,
    kv: Seq<Option<KvMeta>>,
    inp: StepInput,
    pos: usize,
    token: u32,
    hpost: bool,
)
    requires
        inp.seq == 0,
        consistent(env, ctx, kv, Counting::Host, inp),
        ctx.first_obstacle(ctx.layers@.len()) is None,
        inp.pos == launch::Term::Int(pos as int),
    ensures
        ({
            let e = launch::run(
                env,
                inp.s0,
                decode_plan::step_h_ops(ctx, kv, pos, token, hpost),
            );
            let x = hidden(env, ctx, inp, embedded(token), ctx.layers@.len());
            &&& e[Buf::Logits] == seq![logits(env, ctx, x)]
            &&& e[Buf::HSeed] == seq![
                if hpost {
                    final_norm(ctx, x)
                } else {
                    x
                },
            ]
            &&& progress(
                env,
                ctx,
                inp,
                Counting::Host,
                embedded(token),
                e,
                ctx.layers@.len() as int,
            )
        }),
{
    let n = ctx.layers@.len();
    let dim = ctx.cfg.n_embd;
    let mode = Counting::Host;
    let x0 = embedded(token);
    let x = hidden(env, ctx, inp, x0, n);
    let input = decode_plan::host_input_ops(pos, token, dim);
    let trunk = decode_plan::fused_ops(ctx, kv, n);
    let close = if n > 0 {
        decode_plan::close_ops(dim)
    } else {
        Seq::<Op>::empty()
    };
    let norm = decode_plan::out_norm_ops(dim);
    let seed = Op::Clone {
        src: if hpost {
            Buf::Hn
        } else {
            Buf::X
        },
        dst: Buf::HSeed,
    };
    let tail = seq![seed] + decode_plan::lm_head_ops();
    lemma_host_input(env, inp.s0, pos, token, dim);
    let s1 = launch::run(env, inp.s0, input);
    lemma_start(env, ctx, kv, mode, inp, s1, x0);
    lemma_fused(env, ctx, kv, inp, s1, x0, n);
    let s2 = launch::run(env, s1, trunk);
    let s3 = launch::run(env, s2, close);
    let s4 = launch::run(env, s3, norm);
    let s5 = launch::run(env, s4, tail);
    launch::lemma_run_concat(env, inp.s0, input, trunk);
    launch::lemma_run_concat(env, inp.s0, input + trunk, close);
    launch::lemma_run_concat(env, inp.s0, input + trunk + close, norm);
    launch::lemma_run_concat(env, inp.s0, input + trunk + close + norm, tail);
    if n > 0 {
        launch::lemma_run1(env, s2, close[0]);
        assert(close =~= seq![close[0]]);
        assert(s3[Buf::X] == seq![x]) by {
            reveal(launch::step);
            assert(s3[Buf::X] =~= seq![x]);
        }
    }
    lemma_seed_and_head(env, ctx, s3, x, hpost);
    assert forall|b: Buf| is_state(b) implies #[trigger] s5[b] == s2[b] by {
        launch::lemma_run_frame(env, s2, close, b);
        launch::lemma_run_frame(env, s3, norm, b);
        launch::lemma_run_frame(env, s4, tail, b);
    }
    lemma_progress_same(env, ctx, inp, mode, x0, s2, s5, n as int);
}

/// The step with auxiliary outputs computes the same logits, advances every cache and state in
/// the same way, and keeps the outputs of the requested layers in the order of the request:
/// `Aux(j)` is the output of layer `aux[j]`.
pub proof fn law_step_aux(
    env: launch::Env,
    ctx: StepContext,
    kv: Seq<Option<KvMeta>>,
    inp: StepInput,
    pos: usize,
    token: u32,
    aux: Seq<usize>,
)
    requires
        inp.seq == 0,
        consistent(env, ctx, kv, Counting::Host, inp),
        ctx.first_obstacle(ctx.layers@.len()) is None,
        aux.len() <= usize::MAX,
        inp.pos == launch::Term::Int(pos as int),
    ensures
        ({
            let e = launch::run(
                env,
                inp.s0,
                decode_plan::step_aux_ops(ctx, kv, pos, token, aux),
            );
            let n = ctx.layers@.len();
            let x0 = embedded(token);
            &&& e[Buf::Logits] == seq![logits(env, ctx, hidden(env, ctx, inp, x0, n))]
            &&& progress(env, ctx, inp, Counting::Host, x0, e, n as int)
            &&& forall|j: int|
                0 <= j < aux.len() && aux[j] < n ==> #[trigger] e[Buf::Aux(j as usize)] == seq![
                    hidden(env, ctx, inp, x0, (aux[j] + 1) as nat),
                ]
        }),
{
    let n = ctx.layers@.len();
    let dim = ctx.cfg.n_embd;
    let mode = Counting::Host;
    let x0 = embedded(token);
    let x = hidden(env, ctx, inp, x0, n);
    let input = decode_plan::host_input_ops(pos, token, dim);
    let chain = decode_plan::chain_ops(ctx, kv, mode, aux, n);
    let norm = decode_plan::out_norm_ops(dim);
    let head = decode_plan::lm_head_ops();
    lemma_host_input(env, inp.s0, pos, token, dim);
    let s1 = launch::run(env, inp.s0, input);
    lemma_start(env, ctx, kv, mode, inp, s1, x0);
    lemma_chain(env, ctx, kv, mode, aux, inp, s1, x0, n);
    let s2 = launch::run(env, s1, chain);
    let s3 = launch::run(env, s2, norm);
    let s4 = launch::run(env, s3, head);
    launch::lemma_run_concat(env, inp.s0, input, chain);
    launch::lemma_run_concat(env, inp.s0, input + chain, norm);
    launch::lemma_run_concat(env, inp.s0, input + chain + norm, head);
    launch::lemma_run1(env, s2, norm[0]);
    assert(norm =~= seq![norm[0]]);
    launch::lemma_run1(env, s3, head[0]);
    assert(head =~= seq![head[0]]);
    assert(s4[Buf::Logits] == seq![logits(env, ctx, x)]) by {
        reveal(launch::step);
        assert(s3[Buf::Hn] =~= seq![final_norm(ctx, x)]);
        assert(s4[Buf::Logits] =~= seq![logits(env, ctx, x)]);
    }
    assert forall|b: Buf| b != Buf::Hn && b != Buf::Logits implies #[trigger] s4[b] == s2[b] by {
        launch::lemma_run_frame(env, s2, norm, b);
        launch::lemma_run_frame(env, s3, head, b);
    }
    lemma_progress_same(env, ctx, inp, mode, x0, s2, s4, n as int);
}

/// The step with token, position and lengths on the device computes the same logits and advances
/// every cache and state in the same way. It leaves the index of the largest logit as the next
/// token and advances the position. A captured body does so for every length whose attention
/// geometry is that of its bucket.
pub proof fn law_step_counted(
    env: launch::Env,
    ctx: StepContext,
    kv: Seq<Option<KvMeta>>,
    mode: Counting,
    inp: StepInput,
    n_vocab: usize,
    pos: int,
    token: u32,
)
    requires
        inp.seq == 0,
        !(mode is Host),
        consistent(env, ctx, kv, mode, inp),
        ctx.first_obstacle(ctx.layers@.len()) is None,
        inp.pos == launch::Term::Int(pos),
        inp.s0[Buf::Pos] == seq![launch::Term::Int(pos)],
        inp.s0[Buf::Token] == seq![launch::Term::Int(token as int)],
    ensures
        ({
            let e = launch::run(
                env,
                inp.s0,
                decode_plan::step_counted_ops(ctx, kv, mode, n_vocab),
            );
            let n = ctx.layers@.len();
            let x0 = embedded(token);
            let l = logits(env, ctx, hidden(env, ctx, inp, x0, n));
            &&& e[Buf::Logits] == seq![l]
            &&& e[Buf::Token] == seq![launch::un(launch::Fun::Argmax, l)]
            &&& e[Buf::Pos] == seq![launch::Term::Int(pos + 1)]
            &&& progress(env, ctx, inp, mode, x0, e, n as int)
        }),
{
    let n = ctx.layers@.len();
    let dim = ctx.cfg.n_embd;
    let x0 = embedded(token);
    let x = hidden(env, ctx, inp, x0, n);
    let l = logits(env, ctx, x);
    let aux = Seq::<usize>::empty();
    let input = seq![Op::EmbedDevice { dim }];
    let chain = decode_plan::chain_ops(ctx, kv, mode, aux, n);
    let norm = decode_plan::out_norm_ops(dim);
    let tail = decode_plan::lm_head_ops() + seq![
        Op::Argmax { src: Buf::Logits, n: n_vocab },
        Op::IncPos,
    ];
    let s1 = launch::run(env, inp.s0, input);
    launch::lemma_run1(env, inp.s0, input[0]);
    assert(s1 == inp.s0.insert(Buf::X, seq![x0])) by {
        reveal(launch::step);
    }
    lemma_start(env, ctx, kv, mode, inp, s1, x0);
    lemma_chain(env, ctx, kv, mode, aux, inp, s1, x0, n);
    let s2 = launch::run(env, s1, chain);
    let s3 = launch::run(env, s2, norm);
    let s4 = launch::run(env, s3, tail);
    launch::lemma_run_concat(env, inp.s0, input, chain);
    launch::lemma_run_concat(env, inp.s0, input + chain, norm);
    launch::lemma_run_concat(env, inp.s0, input + chain + norm, tail);
    launch::lemma_run1(env, s2, norm[0]);
    assert(norm =~= seq![norm[0]]);
    launch::lemma_run3(env, s3, tail[0], tail[1], tail[2]);
    assert(tail =~= seq![tail[0], tail[1], tail[2]]);
    let t1 = launch::step(env, s3, tail[0]);
    let t2 = launch::step(env, t1, tail[1]);
    assert(s4[Buf::Logits] == seq![l] && s4[Buf::Token] == seq![
        launch::un(launch::Fun::Argmax, l),
    ] && s4[Buf::Pos] == seq![launch::Term::Int(pos + 1)]) by {
        reveal(launch::step);
        assert(s3[Buf::Hn] =~= seq![final_norm(ctx, x)]);
        assert(s3[Buf::Pos] == seq![launch::Term::Int(pos)]);
        assert(t1[Buf::Logits] =~= seq![l]);
        assert(t2[Buf::Token] =~= seq![launch::un(launch::Fun::Argmax, l)]);
        assert(s4[Buf::Pos] =~= seq![launch::Term::Int(pos + 1)]);
    }
    assert forall|b: Buf| is_state(b) implies #[trigger] s4[b] == s2[b] by {
        launch::lemma_run_frame(env, s2, norm, b);
        launch::lemma_run_frame(env, s3, tail, b);
    }
    lemma_progress_same(env, ctx, inp, mode, x0, s2, s4, n as int);
}

} // verus!
