//! What capturing a step leaves behind. A capture runs the step on the live caches a few times;
//! these runs append rows behind those in use, and everything else that a later step reads is put
//! back.

use vstd::prelude::*;

use crate::attention;
use crate::attention::KvMeta;
use crate::config::{Ffn, Mixer};
use crate::decode_plan;
use crate::decode_plan::{Counting, StepContext};
use crate::ffn;
use crate::graph;
use crate::launch;
use crate::launch::{Buf, Op, Term};
use crate::recurrent;

verus! {

/// The launch leaves the caches and the row counter of `layer` alone, or only appends where the
/// counter points or advances it.
pub open spec fn appends_at_most(op: Op, layer: usize) -> bool {
    match op {
        Op::AppendKvCounted { .. } => true,
        Op::IncLen { .. } => true,
        _ => {
            &&& !launch::writes(op, Buf::KCache { seq: 0, layer })
            &&& !launch::writes(op, Buf::VCache { seq: 0, layer })
            &&& !launch::writes(op, Buf::Len { seq: 0, layer })
        },
    }
}

pub open spec fn all_append_at_most(ops: Seq<Op>, layer: usize) -> bool {
    forall|i: int| 0 <= i < ops.len() ==> appends_at_most(#[trigger] ops[i], layer)
}

/// In `s`, the first `len` rows of `layer` are those of `s0`, and the counter is not before them.
pub open spec fn rows_stand(s0: launch::Store, s: launch::Store, layer: usize, len: int) -> bool {
    let (k, v, n) = (
        Buf::KCache { seq: 0, layer },
        Buf::VCache { seq: 0, layer },
        Buf::Len { seq: 0, layer },
    );
    &&& s[k].len() == 1 && s[v].len() == 1 && s[n].len() == 1
    &&& launch::same_rows(launch::one(s0, k), launch::one(s, k), len)
    &&& launch::same_rows(launch::one(s0, v), launch::one(s, v), len)
    &&& launch::one(s, n) matches Term::Int(m) && m >= len
}

proof fn lemma_op_stands(
    env: launch::Env,
    s0: launch::Store,
    s: launch::Store,
    op: Op,
    layer: usize,
    len: int,
)
    requires
        rows_stand(s0, s, layer, len),
        appends_at_most(op, layer),
    ensures
        rows_stand(s0, launch::step(env, s, op), layer, len),
{
    let (k, v, n) = (
        Buf::KCache { seq: 0, layer },
        Buf::VCache { seq: 0, layer },
        Buf::Len { seq: 0, layer },
    );
    match op {
        Op::AppendKvCounted { seq, layer: at, k: kr, v: vr } => {
            reveal(launch::step);
            if seq == 0 && at == layer {
                let m = launch::one(s, n)->Int_0;
                launch::lemma_append_keeps(launch::one(s, k), launch::one(s, kr), m, len);
                launch::lemma_append_keeps(launch::one(s, v), launch::one(s, vr), m, len);
            }
        },
        Op::IncLen { seq, layer: at } => {
            reveal(launch::step);
        },
        _ => {
            launch::lemma_run1(env, s, op);
            launch::lemma_run_frame(env, s, seq![op], k);
            launch::lemma_run_frame(env, s, seq![op], v);
            launch::lemma_run_frame(env, s, seq![op], n);
        },
    }
}

proof fn lemma_run_stands(
    env: launch::Env,
    s0: launch::Store,
    s: launch::Store,
    ops: Seq<Op>,
    layer: usize,
    len: int,
)
    requires
        rows_stand(s0, s, layer, len),
        all_append_at_most(ops, layer),
    ensures
        rows_stand(s0, launch::run(env, s, ops), layer, len),
    decreases ops.len(),
{
    if ops.len() > 0 {
        let before = ops.drop_last();
        assert forall|i: int| 0 <= i < before.len() implies appends_at_most(
            #[trigger] before[i],
            layer,
        ) by {
            assert(before[i] == ops[i]);
        }
        lemma_run_stands(env, s0, s, before, layer, len);
        lemma_op_stands(env, s0, launch::run(env, s, before), ops.last(), layer, len);
    }
}

proof fn lemma_concat(a: Seq<Op>, b: Seq<Op>, layer: usize)
    requires
        all_append_at_most(a, layer),
        all_append_at_most(b, layer),
    ensures
        all_append_at_most(a + b, layer),
{
    assert forall|i: int| 0 <= i < (a + b).len() implies appends_at_most(
        #[trigger] (a + b)[i],
        layer,
    ) by {
        if i < a.len() {
            assert((a + b)[i] == a[i]);
        } else {
            assert((a + b)[i] == b[i - a.len()]);
        }
    }
}

proof fn lemma_attention_appends(
    ctx: StepContext,
    il: int,
    kv: KvMeta,
    pre: bool,
    bucket: usize,
    layer: usize,
)
    requires
        ctx.layers@[il].mixer is Full,
    ensures
        all_append_at_most(
            decode_plan::mixer_ops(ctx, il, Some(kv), Counting::Captured(bucket), pre),
            layer,
        ),
{
    let (cfg, i, io) = (ctx.cfg, il as usize, decode_plan::row_io());
    let fa = ctx.layers@[il].mixer->Full_0;
    let fused3 = ctx.layers@[il].kernels.fused3_qkv;
    let qkv = attention::qkv_ops(i, attention::qkv_fast(fa), pre, fused3, io, cfg.n_embd);
    let rope = attention::norm_rope_ops(
        i,
        cfg.attn_out_gate,
        cfg.head_dim_k,
        cfg.n_head,
        cfg.n_head_kv,
        cfg.rope_dim_count,
    );
    let attend = attention::attend_counted_ops(0, i, kv, Some(bucket));
    let out = attention::attn_out_ops(i, cfg.attn_out_gate, cfg.q_dim() as usize, io.out);
    assert(all_append_at_most(qkv, layer));
    assert(all_append_at_most(rope, layer));
    assert(all_append_at_most(attend, layer));
    assert(all_append_at_most(out, layer));
    lemma_concat(qkv, rope, layer);
    lemma_concat(qkv + rope, attend, layer);
    lemma_concat(qkv + rope + attend, out, layer);
}

proof fn lemma_recurrent_appends(
    ctx: StepContext,
    il: int,
    kv: Option<KvMeta>,
    pre: bool,
    bucket: usize,
    layer: usize,
)
    requires
        ctx.layers@[il].mixer is Linear,
    ensures
        all_append_at_most(
            decode_plan::mixer_ops(ctx, il, kv, Counting::Captured(bucket), pre),
            layer,
        ),
{
    let (i, io, ssm) = (il as usize, decode_plan::row_io(), ctx.cfg.ssm->0);
    let la = ctx.layers@[il].mixer->Linear_0;
    let kernels = ctx.layers@[il].kernels;
    let quantize = recurrent::quantize_ops(io, ctx.cfg.n_embd);
    let (dual, fused2) = (kernels.dual_beta_alpha, kernels.fused2_beta_alpha);
    let pair = recurrent::beta_alpha_ops(i, la, dual, fused2, io);
    let qkv = recurrent::qkv_pair_ops(i, kernels.fused2_qkv, io);
    let float = recurrent::float_proj_ops(i, kernels.fused2_qkv_float, io);
    let proj = recurrent::linear_proj_ops(i, la, kernels, ctx.cfg.n_embd, pre, io);
    let scan = recurrent::scan_ops(0, i, ssm, true);
    let out = recurrent::linear_out_ops(i, la, ssm, io.out);
    assert(all_append_at_most(quantize, layer));
    assert(all_append_at_most(pair, layer));
    assert(all_append_at_most(qkv, layer));
    assert(all_append_at_most(float, layer));
    assert(all_append_at_most(Seq::<Op>::empty(), layer));
    lemma_concat(pair, qkv, layer);
    lemma_concat(quantize, pair + qkv, layer);
    lemma_concat(Seq::<Op>::empty(), pair + qkv, layer);
    assert(all_append_at_most(scan, layer));
    assert(all_append_at_most(out, layer));
    lemma_concat(proj, scan, layer);
    lemma_concat(proj + scan, out, layer);
}

proof fn lemma_ffn_appends(ctx: StepContext, il: int, layer: usize)
    ensures
        all_append_at_most(decode_plan::residual_ops(ctx, il), layer),
{
    let ops = decode_plan::residual_ops(ctx, il);
    let (k, v, n) = (
        Buf::KCache { seq: 0, layer },
        Buf::VCache { seq: 0, layer },
        Buf::Len { seq: 0, layer },
    );
    match ctx.layers@[il].ffn {
        Ffn::Dense { ffn_gate, ffn_up, ffn_down } => {
            let dual = ctx.layers@[il].kernels.dual_gate_up;
            let (i, dim, m3) = (il as usize, ctx.cfg.n_embd, ctx.cfg.is_m3());
            ffn::lemma_ffn_spares(i, ffn_gate, ffn_up, ffn_down, dual, dim, m3, k);
            ffn::lemma_ffn_spares(i, ffn_gate, ffn_up, ffn_down, dual, dim, m3, v);
            ffn::lemma_ffn_spares(i, ffn_gate, ffn_up, ffn_down, dual, dim, m3, n);
            let rest = if ctx.fuses_ffn(il) {
                ffn::ffn_pre_ops(i, ffn_gate, ffn_up, ffn_down, dual)
            } else {
                ffn::ffn_ops(i, ffn_gate, ffn_up, ffn_down, dual, dim, m3)
            };
            let head = seq![ops[0]];
            assert(ops =~= head + rest);
            assert forall|j: int| 0 <= j < rest.len() implies appends_at_most(
                #[trigger] rest[j],
                layer,
            ) by {
                assert(!launch::writes(rest[j], k));
                assert(!launch::writes(rest[j], v));
                assert(!launch::writes(rest[j], n));
            }
            assert(all_append_at_most(head, layer));
            lemma_concat(head, rest, layer);
        },
        Ffn::Moe => {
            assert(all_append_at_most(ops, layer));
        },
    }
}

proof fn lemma_chain_appends(
    ctx: StepContext,
    kv: Seq<Option<KvMeta>>,
    bucket: usize,
    layer: usize,
    n: nat,
)
    requires
        ctx.kv_ready(kv),
        n <= ctx.layers@.len(),
    ensures
        all_append_at_most(
            decode_plan::chain_ops(ctx, kv, Counting::Captured(bucket), Seq::empty(), n),
            layer,
        ),
    decreases n,
{
    if n > 0 {
        let il = n - 1;
        let mode = Counting::Captured(bucket);
        let none = Seq::<usize>::empty();
        lemma_chain_appends(ctx, kv, bucket, layer, il as nat);
        let before = decode_plan::chain_ops(ctx, kv, mode, none, il as nat);
        let norm = decode_plan::norm_in_ops(ctx, il);
        let mixer = decode_plan::mixer_ops(ctx, il, kv[il], mode, ctx.fuses_in(il));
        let ffn = decode_plan::residual_ops(ctx, il);
        let close = decode_plan::close_ops(ctx.cfg.n_embd);
        let keep = decode_plan::keep_ops(none, il, none.len());
        match ctx.layers@[il].mixer {
            Mixer::Full(_) => {
                lemma_attention_appends(ctx, il, kv[il]->0, ctx.fuses_in(il), bucket, layer);
            },
            Mixer::Linear(_) => {
                lemma_recurrent_appends(ctx, il, kv[il], ctx.fuses_in(il), bucket, layer);
            },
        }
        lemma_ffn_appends(ctx, il, layer);
        assert(all_append_at_most(norm, layer));
        assert(all_append_at_most(close, layer));
        assert(keep =~= Seq::<Op>::empty());
        lemma_concat(norm, mixer, layer);
        lemma_concat(norm + mixer, ffn, layer);
        lemma_concat(norm + mixer + ffn, close, layer);
        lemma_concat(norm + mixer + ffn + close, keep, layer);
        lemma_concat(before, norm + mixer + ffn + close + keep, layer);
    }
}

proof fn lemma_step_appends(
    ctx: StepContext,
    kv: Seq<Option<KvMeta>>,
    bucket: usize,
    n_vocab: usize,
    layer: usize,
)
    requires
        ctx.kv_ready(kv),
    ensures
        all_append_at_most(
            decode_plan::step_counted_ops(ctx, kv, Counting::Captured(bucket), n_vocab),
            layer,
        ),
{
    let n = ctx.layers@.len();
    let dim = ctx.cfg.n_embd;
    let embed = seq![Op::EmbedDevice { dim }];
    let chain = decode_plan::chain_ops(ctx, kv, Counting::Captured(bucket), Seq::empty(), n);
    let norm = decode_plan::out_norm_ops(dim);
    let tail = decode_plan::lm_head_ops() + seq![
        Op::Argmax { src: Buf::Logits, n: n_vocab },
        Op::IncPos,
    ];
    lemma_chain_appends(ctx, kv, bucket, layer, n);
    assert(all_append_at_most(embed, layer));
    assert(all_append_at_most(norm, layer));
    assert(all_append_at_most(tail, layer));
    lemma_concat(embed, chain, layer);
    lemma_concat(embed + chain, norm, layer);
    lemma_concat(embed + chain + norm, tail, layer);
}

/// The store after `times` runs of a plan.
pub open spec fn runs(env: launch::Env, s: launch::Store, ops: Seq<Op>, times: nat) -> launch::Store
    decreases times,
{
    if times == 0 {
        s
    } else {
        launch::run(env, runs(env, s, ops, (times - 1) as nat), ops)
    }
}

proof fn lemma_runs_stand(
    env: launch::Env,
    s: launch::Store,
    ops: Seq<Op>,
    times: nat,
    layer: usize,
    len: int,
)
    requires
        rows_stand(s, s, layer, len),
        all_append_at_most(ops, layer),
    ensures
        rows_stand(s, runs(env, s, ops, times), layer, len),
    decreases times,
{
    if times > 0 {
        lemma_runs_stand(env, s, ops, (times - 1) as nat, layer, len);
        lemma_run_stands(env, s, runs(env, s, ops, (times - 1) as nat), ops, layer, len);
    }
}

/// The row counters to be put back.
pub open spec fn saved_lens(kv: Seq<Option<KvMeta>>) -> Seq<Option<i32>> {
    kv.map_values(
        |m: Option<KvMeta>|
            match m {
                Some(m) => Some(m.len as i32),
                None => None,
            },
    )
}

/// The store after a capture: the step for the caches `kv` ran `times` times, and what was saved
/// before it was put back.
pub open spec fn after_capture(
    env: launch::Env,
    ctx: StepContext,
    n_vocab: usize,
    kv: Seq<Option<KvMeta>>,
    pos: usize,
    token: u32,
    bucket: usize,
    times: nat,
    s: launch::Store,
) -> launch::Store {
    let ops = decode_plan::step_counted_ops(ctx, kv, Counting::Captured(bucket), n_vocab);
    graph::apply_all(
        runs(env, s, ops, times),
        s,
        graph::restore_list(pos as i32, saved_lens(kv), token),
    )
}

/// Layer `il` holds what it held before the capture, as far as a later step reads it.
pub open spec fn layer_untouched(
    ctx: StepContext,
    kv: Seq<Option<KvMeta>>,
    s: launch::Store,
    e: launch::Store,
    il: int,
) -> bool {
    let layer = il as usize;
    match ctx.layers@[il].mixer {
        Mixer::Full(_) => {
            let (k, v) = (Buf::KCache { seq: 0, layer }, Buf::VCache { seq: 0, layer });
            let len = kv[il]->0.len as int;
            &&& launch::same_rows(launch::one(s, k), launch::one(e, k), len)
            &&& launch::same_rows(launch::one(s, v), launch::one(e, v), len)
            &&& e[k].len() == 1 && e[v].len() == 1
            &&& e[Buf::Len { seq: 0, layer }] == seq![Term::Int(len)]
        },
        Mixer::Linear(_) => {
            &&& e[Buf::Conv { seq: 0, layer }] == s[Buf::Conv { seq: 0, layer }]
            &&& e[Buf::Ssm { seq: 0, layer }] == s[Buf::Ssm { seq: 0, layer }]
        },
    }
}

/// A capture leaves no trace, however often it runs the step: once the saved state is put back,
/// position and token are those before it, and so are every recurrent state, every row counter
/// and every cache row in use.
pub proof fn law_capture_leaves_no_trace(
    env: launch::Env,
    ctx: StepContext,
    n_vocab: usize,
    kv: Seq<Option<KvMeta>>,
    pos: usize,
    token: u32,
    bucket: usize,
    times: nat,
    s: launch::Store,
)
    requires
        ctx.kv_ready(kv),
        ctx.layers@.len() <= usize::MAX,
        pos <= i32::MAX,
        forall|il: int|
            0 <= il < kv.len() ==> (#[trigger] kv[il] matches Some(m) ==> {
                &&& m.len <= i32::MAX
                &&& s[Buf::KCache { seq: 0, layer: il as usize }].len() == 1
                &&& s[Buf::VCache { seq: 0, layer: il as usize }].len() == 1
                &&& s[Buf::Len { seq: 0, layer: il as usize }] == seq![Term::Int(m.len as int)]
            }),
    ensures
        ({
            let e = after_capture(env, ctx, n_vocab, kv, pos, token, bucket, times, s);
            &&& e[Buf::Pos] == seq![Term::Int(pos as int)]
            &&& e[Buf::Token] == seq![Term::Int(token as int)]
            &&& forall|il: int|
                #![trigger ctx.layers@[il]]
                0 <= il < ctx.layers@.len() ==> layer_untouched(ctx, kv, s, e, il)
        }),
{
    let ops = decode_plan::step_counted_ops(ctx, kv, Counting::Captured(bucket), n_vocab);
    let t = runs(env, s, ops, times);
    let e = after_capture(env, ctx, n_vocab, kv, pos, token, bucket, times, s);
    let lens = saved_lens(kv);
    graph::law_restore(t, s, pos as i32, lens, token);
    assert forall|il: int|
        #![trigger ctx.layers@[il]]
        0 <= il < ctx.layers@.len() implies layer_untouched(ctx, kv, s, e, il) by {
        let layer = il as usize;
        match ctx.layers@[il].mixer {
            Mixer::Full(_) => {
                let m = kv[il]->0;
                assert(kv[il] == Some(m));
                lemma_step_appends(ctx, kv, bucket, n_vocab, layer);
                assert(rows_stand(s, s, layer, m.len as int));
                lemma_runs_stand(env, s, ops, times, layer, m.len as int);
                assert(lens[il] == Some(m.len as i32));
                assert(e[Buf::Len { seq: 0, layer: il as usize }] == seq![
                    Term::Int(lens[il]->0 as int),
                ]);
                assert(e[Buf::KCache { seq: 0, layer }] == t[Buf::KCache { seq: 0, layer }]);
                assert(e[Buf::VCache { seq: 0, layer }] == t[Buf::VCache { seq: 0, layer }]);
            },
            Mixer::Linear(_) => {
                assert(graph::is_recurrent(Buf::Conv { seq: 0, layer }));
                assert(graph::is_recurrent(Buf::Ssm { seq: 0, layer }));
            },
        }
    }
}

} // verus!
