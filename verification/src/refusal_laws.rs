//! Refused steps: where they stop, what they plan before, and which caches took the row.

use vstd::prelude::*;

use crate::attention;
use crate::attention::{KvMeta, RowBufs};
use crate::config::{Ffn, FullAttnLayer, Mixer, ModelConfig};
use crate::decode_plan;
use crate::decode_plan::{Counting, StepContext};
use crate::ffn;
use crate::ffn::PlanError;
use crate::launch;
use crate::launch::{Buf, Op};
use crate::recurrent;

verus! {

/// A step is refused for the obstacle of the first layer that has one, and every layer before it
/// is clear.
pub proof fn law_first_obstacle(ctx: StepContext, n: nat)
    ensures
        match ctx.first_obstacle(n) {
            Some(e) => {
                let il = ctx.clear_layers(n) as int;
                &&& il < n
                &&& ctx.obstacle(il) == Some(e)
                &&& forall|i: int| 0 <= i < il ==> #[trigger] ctx.obstacle(i) is None
            },
            None => {
                &&& ctx.clear_layers(n) == n
                &&& forall|i: int| 0 <= i < n ==> #[trigger] ctx.obstacle(i) is None
            },
        },
    decreases n,
{
    if n > 0 {
        law_first_obstacle(ctx, (n - 1) as nat);
    }
}

/// A layer stands in the way where its attention would be the naive one, and otherwise where its
/// dense block takes q8_1 rows but one of its two projections cannot leave out its scale.
pub proof fn law_obstacles(ctx: StepContext, il: int)
    ensures
        ctx.obstacle(il) == Some(PlanError::NaiveAttention) <==> ctx.naive
            && ctx.layers@[il].mixer is Full,
        ctx.layers@[il].ffn is Moe ==> ctx.obstacle(il) != Some(PlanError::GateUpNotSeparable),
        ctx.no_fuse || ctx.cfg.is_m3() ==> ctx.obstacle(il) != Some(PlanError::GateUpNotSeparable),
        ctx.layers@[il].ffn matches Ffn::Dense { ffn_gate, ffn_up, ffn_down } ==> (ctx.obstacle(il)
            == Some(PlanError::GateUpNotSeparable) <==> {
            &&& !(ctx.naive && ctx.layers@[il].mixer is Full)
            &&& !ctx.no_fuse && !ctx.cfg.is_m3()
            &&& ffn_gate.q8_1_fast && ffn_up.q8_1_fast
            &&& !ctx.layers@[il].kernels.dual_gate_up
            &&& !ffn_gate.separable || !ffn_up.separable
        }),
{
}

/// `a` is how `b` starts.
pub open spec fn starts(a: Seq<Op>, b: Seq<Op>) -> bool {
    a.len() <= b.len() && b.take(a.len() as int) == a
}

proof fn lemma_starts_within(p: Seq<Op>, a: Seq<Op>, b: Seq<Op>, q: Seq<Op>)
    requires
        starts(a, b),
    ensures
        starts(p + a, p + b + q),
        starts(p + a, p + (b + q)),
{
    assert forall|i: int| 0 <= i < a.len() implies a[i] == b[i] by {
        assert(b.take(a.len() as int)[i] == b[i]);
    }
    assert((p + b + q).take((p + a).len() as int) =~= p + a);
    assert((p + (b + q)).take((p + a).len() as int) =~= p + a);
}

/// Refused attention is how the whole attention starts, and what does not run is the launch that
/// would read the cache, with the row in it.
pub proof fn law_refused_attention_is_a_start(
    cfg: ModelConfig,
    fa: FullAttnLayer,
    fused3: bool,
    seq: usize,
    il: usize,
    kv: KvMeta,
    pre: bool,
    prefetch: bool,
    bucket: Option<usize>,
    io: RowBufs,
)
    ensures
        ({
            let a = attention::refused_attn_ops(cfg, fa, fused3, seq, il, kv, pre, prefetch, io);
            let b = attention::full_attn_ops(cfg, fa, fused3, seq, il, kv, pre, prefetch, io);
            &&& starts(a, b)
            &&& a.len() < b.len() && b[a.len() as int] is FaDecode
        }),
        ({
            let a = attention::refused_counted_ops(cfg, fa, fused3, seq, il, pre, io);
            let b = attention::full_attn_counted_ops(
                cfg,
                fa,
                fused3,
                seq,
                il,
                kv,
                pre,
                bucket,
                io,
            );
            &&& starts(a, b)
            &&& a.len() < b.len() && b[a.len() as int] is FaDecodeCounted
        }),
{
    let a = attention::refused_attn_ops(cfg, fa, fused3, seq, il, kv, pre, prefetch, io);
    let b = attention::full_attn_ops(cfg, fa, fused3, seq, il, kv, pre, prefetch, io);
    assert(b.take(a.len() as int) =~= a);
    let c = attention::refused_counted_ops(cfg, fa, fused3, seq, il, pre, io);
    let d = attention::full_attn_counted_ops(cfg, fa, fused3, seq, il, kv, pre, bucket, io);
    assert(d.take(c.len() as int) =~= c);
}

proof fn lemma_mixer_starts(
    ctx: StepContext,
    il: int,
    kv: Option<KvMeta>,
    mode: Counting,
    pre: bool,
)
    requires
        ctx.layers@[il].mixer is Full,
    ensures
        starts(
            decode_plan::refused_mixer_ops(ctx, il, kv, mode, pre),
            decode_plan::mixer_ops(ctx, il, kv, mode, pre),
        ),
{
    let fa = ctx.layers@[il].mixer->Full_0;
    let bucket = match mode {
        Counting::Captured(b) => Some(b),
        _ => None,
    };
    law_refused_attention_is_a_start(
        ctx.cfg,
        fa,
        ctx.layers@[il].kernels.fused3_qkv,
        0,
        il as usize,
        kv->0,
        pre,
        ctx.prefetch,
        bucket,
        decode_plan::row_io(),
    );
}

proof fn lemma_residual_starts(ctx: StepContext, il: int)
    requires
        ctx.ffn_blocked(il),
    ensures
        starts(decode_plan::refused_residual_ops(ctx, il), decode_plan::residual_ops(ctx, il)),
{
    let a = decode_plan::refused_residual_ops(ctx, il);
    let b = decode_plan::residual_ops(ctx, il);
    assert(b.take(a.len() as int) =~= a);
}

proof fn lemma_open_starts(ctx: StepContext, kv: Option<KvMeta>, il: int)
    requires
        0 <= il,
        ctx.obstacle(il) is Some,
    ensures
        starts(
            decode_plan::fused_stop_ops(ctx, kv, il),
            decode_plan::open_ops(ctx, kv, il) + decode_plan::residual_ops(ctx, il),
        ),
{
    let none = Seq::<Op>::empty();
    let open = decode_plan::open_ops(ctx, kv, il);
    let residual = decode_plan::residual_ops(ctx, il);
    let stop = decode_plan::fused_stop_ops(ctx, kv, il);
    if ctx.mixer_blocked(il) {
        let pre = ctx.fuses_in(il);
        let a = decode_plan::refused_mixer_ops(ctx, il, kv, Counting::Host, pre);
        let b = decode_plan::mixer_ops(ctx, il, kv, Counting::Host, pre);
        lemma_mixer_starts(ctx, il, kv, Counting::Host, pre);
        let p = open.take(open.len() - b.len());
        if il > 0 && !ctx.fuses_in(il) {
            let close = decode_plan::close_ops(ctx.cfg.n_embd);
            let norm = decode_plan::norm_in_ops(ctx, il);
            assert(open =~= close + norm + b);
            assert(p =~= close + norm);
            assert(stop =~= close + norm + a);
        } else {
            assert(open =~= p + b);
            assert(stop =~= p + a);
        }
        lemma_starts_within(p, a, b, residual);
    } else {
        lemma_residual_starts(ctx, il);
        let a = decode_plan::refused_residual_ops(ctx, il);
        lemma_starts_within(open, a, residual, none);
        assert(open + residual + none =~= open + residual);
    }
}

proof fn lemma_fused_starts(ctx: StepContext, kv: Seq<Option<KvMeta>>, il: nat, n: nat)
    requires
        il < n,
        ctx.obstacle(il as int) is Some,
    ensures
        starts(
            decode_plan::fused_ops(ctx, kv, il) + decode_plan::fused_stop_ops(
                ctx,
                kv[il as int],
                il as int,
            ),
            decode_plan::fused_ops(ctx, kv, n),
        ),
    decreases n,
{
    let none = Seq::<Op>::empty();
    let a = decode_plan::fused_ops(ctx, kv, il) + decode_plan::fused_stop_ops(
        ctx,
        kv[il as int],
        il as int,
    );
    if il == n - 1 {
        lemma_open_starts(ctx, kv[il as int], il as int);
        let b = decode_plan::open_ops(ctx, kv[il as int], il as int) + decode_plan::residual_ops(
            ctx,
            il as int,
        );
        lemma_starts_within(
            decode_plan::fused_ops(ctx, kv, il),
            decode_plan::fused_stop_ops(ctx, kv[il as int], il as int),
            b,
            none,
        );
        assert(decode_plan::fused_ops(ctx, kv, il) + b + none =~= decode_plan::fused_ops(
            ctx,
            kv,
            n,
        ));
    } else {
        lemma_fused_starts(ctx, kv, il, (n - 1) as nat);
        let before = decode_plan::fused_ops(ctx, kv, (n - 1) as nat);
        let all = decode_plan::fused_ops(ctx, kv, n);
        assert forall|i: int| 0 <= i < a.len() implies a[i] == all[i] by {
            assert(before.take(a.len() as int)[i] == a[i]);
            assert(all[i] == before[i]);
        }
        assert(all.take(a.len() as int) =~= a);
    }
}

/// A refused step plans what the whole step would, up to the obstacle.
pub proof fn law_refused_step_is_a_start(
    ctx: StepContext,
    kv: Seq<Option<KvMeta>>,
    pos: usize,
    token: u32,
    hpost: bool,
)
    requires
        ctx.first_obstacle(ctx.layers@.len()) is Some,
    ensures
        starts(
            decode_plan::refused_h_ops(ctx, kv, pos, token),
            decode_plan::step_h_ops(ctx, kv, pos, token, hpost),
        ),
{
    let n = ctx.layers@.len();
    law_first_obstacle(ctx, n);
    let il = ctx.clear_layers(n);
    lemma_fused_starts(ctx, kv, il, n);
    let dim = ctx.cfg.n_embd;
    let input = decode_plan::host_input_ops(pos, token, dim);
    let all = decode_plan::step_h_ops(ctx, kv, pos, token, hpost);
    let body = decode_plan::fused_ops(ctx, kv, n);
    let rest = all.skip((input + body).len() as int);
    assert(all =~= input + body + rest);
    lemma_starts_within(
        input,
        decode_plan::fused_ops(ctx, kv, il) + decode_plan::fused_stop_ops(
            ctx,
            kv[il as int],
            il as int,
        ),
        body,
        rest,
    );
}

proof fn lemma_chain_stop_starts(
    ctx: StepContext,
    kv: Option<KvMeta>,
    mode: Counting,
    il: int,
)
    requires
        ctx.obstacle(il) is Some,
    ensures
        starts(
            decode_plan::chain_stop_ops(ctx, kv, mode, il),
            decode_plan::attn_in_ops(ctx, il, kv, mode) + decode_plan::residual_ops(ctx, il),
        ),
{
    let residual = decode_plan::residual_ops(ctx, il);
    if ctx.mixer_blocked(il) {
        let pre = ctx.fuses_in(il);
        lemma_mixer_starts(ctx, il, kv, mode, pre);
        lemma_starts_within(
            decode_plan::norm_in_ops(ctx, il),
            decode_plan::refused_mixer_ops(ctx, il, kv, mode, pre),
            decode_plan::mixer_ops(ctx, il, kv, mode, pre),
            residual,
        );
    } else {
        let none = Seq::<Op>::empty();
        let open = decode_plan::attn_in_ops(ctx, il, kv, mode);
        lemma_residual_starts(ctx, il);
        lemma_starts_within(open, decode_plan::refused_residual_ops(ctx, il), residual, none);
        assert(open + residual + none =~= open + residual);
    }
}

/// A refused chain of layers plans what the whole chain would, up to the obstacle.
pub proof fn law_refused_chain_is_a_start(
    ctx: StepContext,
    kv: Seq<Option<KvMeta>>,
    mode: Counting,
    aux: Seq<usize>,
    n: nat,
)
    requires
        ctx.first_obstacle(ctx.layers@.len()) is Some,
        ctx.clear_layers(ctx.layers@.len()) < n <= ctx.layers@.len(),
    ensures
        starts(
            decode_plan::refused_chain_ops(ctx, kv, mode, aux),
            decode_plan::chain_ops(ctx, kv, mode, aux, n),
        ),
    decreases n,
{
    law_first_obstacle(ctx, ctx.layers@.len());
    let il = ctx.clear_layers(ctx.layers@.len());
    let a = decode_plan::refused_chain_ops(ctx, kv, mode, aux);
    let all = decode_plan::chain_ops(ctx, kv, mode, aux, n);
    let before = decode_plan::chain_ops(ctx, kv, mode, aux, (n - 1) as nat);
    if il == n - 1 {
        let i = il as int;
        lemma_chain_stop_starts(ctx, kv[i], mode, i);
        let open = decode_plan::attn_in_ops(ctx, i, kv[i], mode);
        let residual = decode_plan::residual_ops(ctx, i);
        let close = decode_plan::close_ops(ctx.cfg.n_embd);
        let keep = decode_plan::keep_ops(aux, i, aux.len());
        lemma_starts_within(
            before,
            decode_plan::chain_stop_ops(ctx, kv[i], mode, i),
            open + residual,
            close + keep,
        );
        assert(before + (open + residual) + (close + keep) =~= all);
    } else {
        law_refused_chain_is_a_start(ctx, kv, mode, aux, (n - 1) as nat);
        assert forall|i: int| 0 <= i < a.len() implies a[i] == all[i] by {
            assert(before.take(a.len() as int)[i] == a[i]);
            assert(all[i] == before[i]);
        }
        assert(all.take(a.len() as int) =~= a);
    }
}

/// Rows that a plan adds to the cache of a layer of the only sequence.
pub open spec fn rows_added(ops: Seq<Op>, layer: usize) -> nat
    decreases ops.len(),
{
    if ops.len() == 0 {
        0
    } else {
        rows_added(ops.drop_last(), layer) + (if launch::writes(
            ops.last(),
            Buf::KCache { seq: 0, layer },
        ) {
            1nat
        } else {
            0nat
        })
    }
}

proof fn lemma_added_concat(a: Seq<Op>, b: Seq<Op>, layer: usize)
    ensures
        rows_added(a + b, layer) == rows_added(a, layer) + rows_added(b, layer),
    decreases b.len(),
{
    if b.len() == 0 {
        assert(a + b =~= a);
    } else {
        lemma_added_concat(a, b.drop_last(), layer);
        assert((a + b).drop_last() =~= a + b.drop_last());
        assert((a + b).last() == b.last());
    }
}

proof fn lemma_added_none(ops: Seq<Op>, layer: usize)
    requires
        launch::spares(ops, Buf::KCache { seq: 0, layer }),
    ensures
        rows_added(ops, layer) == 0,
    decreases ops.len(),
{
    if ops.len() > 0 {
        let d = ops.drop_last();
        assert forall|i: int| 0 <= i < d.len() implies !launch::writes(
            #[trigger] d[i],
            Buf::KCache { seq: 0, layer },
        ) by {
            assert(d[i] == ops[i]);
        }
        lemma_added_none(d, layer);
        assert(ops.last() == ops[ops.len() - 1]);
    }
}

proof fn lemma_head_added(ctx: StepContext, il: int, pre: bool, layer: usize)
    requires
        ctx.layers@[il].mixer is Full,
    ensures
        rows_added(
            attention::attn_head_ops(
                ctx.cfg,
                ctx.layers@[il].mixer->Full_0,
                ctx.layers@[il].kernels.fused3_qkv,
                il as usize,
                pre,
                decode_plan::row_io(),
            ),
            layer,
        ) == 0,
{
    let (cfg, i, io) = (ctx.cfg, il as usize, decode_plan::row_io());
    let fa = ctx.layers@[il].mixer->Full_0;
    let fused3 = ctx.layers@[il].kernels.fused3_qkv;
    let qkv = attention::qkv_ops(i, attention::qkv_fast(fa), pre, fused3, io, cfg.n_embd);
    let rope = attention::norm_rope_ops(
        i,
        cfg.attn_out_gate,
        cfg.head_dim_k,
        cfg.n_head,
        cfg.n_head_kv,
        cfg.rope_dim_count,
    );
    let b = Buf::KCache { seq: 0, layer };
    assert(launch::spares(qkv, b));
    assert(launch::spares(rope, b));
    lemma_added_none(qkv, layer);
    lemma_added_none(rope, layer);
    lemma_added_concat(qkv, rope, layer);
}

/// The rows that a layer's mixer adds: one to its own cache, where it has one.
pub open spec fn mixer_adds(ctx: StepContext, il: int, layer: usize) -> nat {
    if ctx.layers@[il].mixer is Full && layer == il {
        1
    } else {
        0
    }
}

proof fn lemma_attention_added(
    ctx: StepContext,
    il: int,
    kv: Option<KvMeta>,
    mode: Counting,
    pre: bool,
    layer: usize,
)
    requires
        0 <= il <= usize::MAX,
        ctx.layers@[il].mixer is Full,
    ensures
        rows_added(decode_plan::mixer_ops(ctx, il, kv, mode, pre), layer) == mixer_adds(
            ctx,
            il,
            layer,
        ),
        rows_added(decode_plan::refused_mixer_ops(ctx, il, kv, mode, pre), layer) == mixer_adds(
            ctx,
            il,
            layer,
        ),
{
    let (cfg, i, io) = (ctx.cfg, il as usize, decode_plan::row_io());
    let fa = ctx.layers@[il].mixer->Full_0;
    let fused3 = ctx.layers@[il].kernels.fused3_qkv;
    let b = Buf::KCache { seq: 0, layer };
    let head = attention::attn_head_ops(cfg, fa, fused3, i, pre, io);
    lemma_head_added(ctx, il, pre, layer);
    let warm = attention::prefetch_ops(0, i, kv->0, ctx.prefetch);
    let out = attention::attn_out_ops(i, cfg.attn_out_gate, cfg.q_dim() as usize, io.out);
    assert(launch::spares(warm, b));
    assert(launch::spares(out, b));
    lemma_added_none(warm, layer);
    lemma_added_none(out, layer);
    lemma_added_concat(warm, head, layer);
    match mode {
        Counting::Host => {
            let put = seq![
                Op::AppendKv { seq: 0, layer: i, k: Buf::Kn, v: Buf::V, at: kv->0.len },
            ];
            let attend = attention::attend_host_ops(0, i, kv->0);
            lemma_added_concat(warm + head, attend, layer);
            lemma_added_concat(warm + head + attend, out, layer);
            lemma_added_concat(warm + head, put, layer);
            let rest = attend.skip(1);
            assert(attend =~= put + rest);
            assert(launch::spares(rest, b));
            lemma_added_none(rest, layer);
            lemma_added_concat(put, rest, layer);
            assert(put.drop_last() =~= Seq::<Op>::empty());
            assert(rows_added(put.drop_last(), layer) == 0);
        },
        _ => {
            let bucket = match mode {
                Counting::Captured(n) => Some(n),
                _ => None,
            };
            let put = seq![Op::AppendKvCounted { seq: 0, layer: i, k: Buf::Kn, v: Buf::V }];
            let count = seq![Op::IncLen { seq: 0, layer: i }];
            let attend = attention::attend_counted_ops(0, i, kv->0, bucket);
            lemma_added_concat(head, attend, layer);
            lemma_added_concat(head + attend, out, layer);
            let stop = attend.take(2);
            let rest = attend.skip(1);
            assert(stop =~= put + count);
            assert(attend =~= put + rest);
            assert(launch::spares(rest, b));
            assert(launch::spares(count, b));
            lemma_added_none(rest, layer);
            lemma_added_none(count, layer);
            lemma_added_concat(put, rest, layer);
            lemma_added_concat(put, count, layer);
            lemma_added_concat(head, stop, layer);
            assert(decode_plan::refused_mixer_ops(ctx, il, kv, mode, pre) =~= head + stop);
            assert(put.drop_last() =~= Seq::<Op>::empty());
            assert(rows_added(put.drop_last(), layer) == 0);
        },
    }
}

proof fn lemma_recurrent_added(
    ctx: StepContext,
    il: int,
    kv: Option<KvMeta>,
    mode: Counting,
    pre: bool,
    layer: usize,
)
    requires
        ctx.layers@[il].mixer is Linear,
    ensures
        rows_added(decode_plan::mixer_ops(ctx, il, kv, mode, pre), layer) == 0,
{
    let (i, io, ssm) = (il as usize, decode_plan::row_io(), ctx.cfg.ssm->0);
    let la = ctx.layers@[il].mixer->Linear_0;
    let kernels = ctx.layers@[il].kernels;
    let b = Buf::KCache { seq: 0, layer };
    let quantize = recurrent::quantize_ops(io, ctx.cfg.n_embd);
    let (dual, fused2) = (kernels.dual_beta_alpha, kernels.fused2_beta_alpha);
    let pair = recurrent::beta_alpha_ops(i, la, dual, fused2, io);
    let qkv = recurrent::qkv_pair_ops(i, kernels.fused2_qkv, io);
    let float = recurrent::float_proj_ops(i, kernels.fused2_qkv_float, io);
    let proj = recurrent::linear_proj_ops(i, la, kernels, ctx.cfg.n_embd, pre, io);
    let scan = recurrent::scan_ops(0, i, ssm, mode is Captured);
    let out = recurrent::linear_out_ops(i, la, ssm, io.out);
    assert(launch::spares(quantize, b));
    assert(launch::spares(pair, b));
    assert(launch::spares(qkv, b));
    assert(launch::spares(float, b));
    assert(launch::spares(Seq::<Op>::empty(), b));
    launch::lemma_spares_concat(pair, qkv, b);
    launch::lemma_spares_concat(quantize, pair + qkv, b);
    launch::lemma_spares_concat(Seq::<Op>::empty(), pair + qkv, b);
    assert(launch::spares(scan, b));
    assert(launch::spares(out, b));
    launch::lemma_spares_concat(proj, scan, b);
    launch::lemma_spares_concat(proj + scan, out, b);
    lemma_added_none(decode_plan::mixer_ops(ctx, il, kv, mode, pre), layer);
}

proof fn lemma_mixer_added(
    ctx: StepContext,
    il: int,
    kv: Option<KvMeta>,
    mode: Counting,
    pre: bool,
    layer: usize,
)
    requires
        0 <= il <= usize::MAX,
    ensures
        rows_added(decode_plan::mixer_ops(ctx, il, kv, mode, pre), layer) == mixer_adds(
            ctx,
            il,
            layer,
        ),
{
    match ctx.layers@[il].mixer {
        Mixer::Full(_) => {
            lemma_attention_added(ctx, il, kv, mode, pre, layer);
        },
        Mixer::Linear(_) => {
            lemma_recurrent_added(ctx, il, kv, mode, pre, layer);
        },
    }
}

proof fn lemma_rest_added(ctx: StepContext, il: int, aux: Seq<usize>, layer: usize)
    ensures
        rows_added(decode_plan::norm_in_ops(ctx, il), layer) == 0,
        rows_added(decode_plan::residual_ops(ctx, il), layer) == 0,
        rows_added(decode_plan::refused_residual_ops(ctx, il), layer) == 0,
        rows_added(decode_plan::close_ops(ctx.cfg.n_embd), layer) == 0,
        rows_added(decode_plan::keep_ops(aux, il, aux.len()), layer) == 0,
{
    let b = Buf::KCache { seq: 0, layer };
    let norm = decode_plan::norm_in_ops(ctx, il);
    let close = decode_plan::close_ops(ctx.cfg.n_embd);
    assert(launch::spares(norm, b));
    assert(launch::spares(close, b));
    lemma_added_none(norm, layer);
    lemma_added_none(close, layer);
    lemma_keep_added(aux, il, aux.len(), layer);
    let ops = decode_plan::residual_ops(ctx, il);
    match ctx.layers@[il].ffn {
        Ffn::Dense { ffn_gate, ffn_up, ffn_down } => {
            let dual = ctx.layers@[il].kernels.dual_gate_up;
            let (i, dim, m3) = (il as usize, ctx.cfg.n_embd, ctx.cfg.is_m3());
            ffn::lemma_ffn_spares(i, ffn_gate, ffn_up, ffn_down, dual, dim, m3, b);
            let rest = if ctx.fuses_ffn(il) {
                ffn::ffn_pre_ops(i, ffn_gate, ffn_up, ffn_down, dual)
            } else {
                ffn::ffn_ops(i, ffn_gate, ffn_up, ffn_down, dual, dim, m3)
            };
            let head = seq![ops[0]];
            assert(ops =~= head + rest);
            assert(launch::spares(head, b));
            launch::lemma_spares_concat(head, rest, b);
        },
        Ffn::Moe => {
            assert(launch::spares(ops, b));
        },
    }
    lemma_added_none(ops, layer);
    let refused = decode_plan::refused_residual_ops(ctx, il);
    assert(launch::spares(refused, b));
    lemma_added_none(refused, layer);
}

proof fn lemma_keep_added(aux: Seq<usize>, il: int, m: nat, layer: usize)
    ensures
        rows_added(decode_plan::keep_ops(aux, il, m), layer) == 0,
    decreases m,
{
    if m > 0 {
        lemma_keep_added(aux, il, (m - 1) as nat, layer);
        let before = decode_plan::keep_ops(aux, il, (m - 1) as nat);
        let all = decode_plan::keep_ops(aux, il, m);
        if all != before {
            assert(all.drop_last() =~= before);
        }
    }
}

proof fn lemma_open_added(ctx: StepContext, kv: Option<KvMeta>, il: int, layer: usize)
    requires
        0 <= il <= usize::MAX,
    ensures
        rows_added(decode_plan::open_ops(ctx, kv, il), layer) == mixer_adds(ctx, il, layer),
        ctx.layers@[il].mixer is Full ==> rows_added(
            decode_plan::refused_open_ops(ctx, kv, il),
            layer,
        ) == mixer_adds(ctx, il, layer),
{
    let pre = ctx.fuses_in(il);
    let b = Buf::KCache { seq: 0, layer };
    let norm = decode_plan::norm_in_ops(ctx, il);
    let close = decode_plan::close_ops(ctx.cfg.n_embd);
    let fused = seq![
        Op::AddRmsNormQ8 {
            a: Buf::X1,
            b: Buf::FfnOut,
            w: launch::Weight::Layer(il as usize, launch::Slot::AttnNorm),
            sum: Buf::X,
            q: Buf::Hq,
            d: Buf::Hd,
            dim: ctx.cfg.n_embd,
            rows: 1,
        },
    ];
    let mixer = decode_plan::mixer_ops(ctx, il, kv, Counting::Host, pre);
    let refused = decode_plan::refused_mixer_ops(ctx, il, kv, Counting::Host, pre);
    lemma_rest_added(ctx, il, Seq::empty(), layer);
    lemma_mixer_added(ctx, il, kv, Counting::Host, pre, layer);
    assert(launch::spares(fused, b));
    lemma_added_none(fused, layer);
    lemma_added_concat(fused, mixer, layer);
    lemma_added_concat(norm, mixer, layer);
    lemma_added_concat(close, norm + mixer, layer);
    if ctx.layers@[il].mixer is Full {
        lemma_attention_added(ctx, il, kv, Counting::Host, pre, layer);
        lemma_added_concat(fused, refused, layer);
        lemma_added_concat(norm, refused, layer);
        lemma_added_concat(close, norm + refused, layer);
    }
}

/// Rows that the first `n` layers add to the cache of a layer.
pub open spec fn layers_add(ctx: StepContext, n: nat, layer: usize) -> nat {
    if layer < n && ctx.layers@[layer as int].mixer is Full {
        1
    } else {
        0
    }
}

proof fn lemma_fused_added(ctx: StepContext, kv: Seq<Option<KvMeta>>, n: nat, layer: usize)
    requires
        n <= usize::MAX,
    ensures
        rows_added(decode_plan::fused_ops(ctx, kv, n), layer) == layers_add(ctx, n, layer),
    decreases n,
{
    if n > 0 {
        let il = n - 1;
        lemma_fused_added(ctx, kv, il as nat, layer);
        lemma_open_added(ctx, kv[il], il, layer);
        lemma_rest_added(ctx, il, Seq::empty(), layer);
        let open = decode_plan::open_ops(ctx, kv[il], il);
        let residual = decode_plan::residual_ops(ctx, il);
        lemma_added_concat(open, residual, layer);
        lemma_added_concat(decode_plan::fused_ops(ctx, kv, il as nat), open + residual, layer);
    }
}

proof fn lemma_chain_added(
    ctx: StepContext,
    kv: Seq<Option<KvMeta>>,
    mode: Counting,
    aux: Seq<usize>,
    n: nat,
    layer: usize,
)
    requires
        n <= usize::MAX,
    ensures
        rows_added(decode_plan::chain_ops(ctx, kv, mode, aux, n), layer) == layers_add(
            ctx,
            n,
            layer,
        ),
    decreases n,
{
    if n > 0 {
        let il = n - 1;
        lemma_chain_added(ctx, kv, mode, aux, il as nat, layer);
        lemma_rest_added(ctx, il, aux, layer);
        lemma_mixer_added(ctx, il, kv[il], mode, ctx.fuses_in(il), layer);
        let norm = decode_plan::norm_in_ops(ctx, il);
        let mixer = decode_plan::mixer_ops(ctx, il, kv[il], mode, ctx.fuses_in(il));
        let residual = decode_plan::residual_ops(ctx, il);
        let close = decode_plan::close_ops(ctx.cfg.n_embd);
        let keep = decode_plan::keep_ops(aux, il, aux.len());
        lemma_added_concat(norm, mixer, layer);
        lemma_added_concat(norm + mixer, residual, layer);
        lemma_added_concat(norm + mixer + residual, close, layer);
        lemma_added_concat(norm + mixer + residual + close, keep, layer);
        lemma_added_concat(
            decode_plan::chain_ops(ctx, kv, mode, aux, il as nat),
            norm + mixer + residual + close + keep,
            layer,
        );
    }
}

/// The host's length of a cache follows the rows that a plan adds to it.
pub open spec fn follows(
    before: Option<KvMeta>,
    after: Option<KvMeta>,
    ops: Seq<Op>,
    layer: usize,
) -> bool {
    match before {
        Some(kv) => after == Some(
            KvMeta { len: (kv.len + rows_added(ops, layer)) as usize, ..kv },
        ),
        None => after is None && rows_added(ops, layer) == 0,
    }
}

/// After a step, every cache is as long as the rows that the step added make it, whether the host
/// or the device counts them.
pub proof fn law_lengths_follow_rows(
    ctx: StepContext,
    kv: Seq<Option<KvMeta>>,
    mode: Counting,
    aux: Seq<usize>,
    layer: usize,
)
    requires
        ctx.kv_ready(kv),
        ctx.layers@.len() <= usize::MAX,
        layer < ctx.layers@.len(),
        !(mode is Captured),
    ensures
        ({
            let n = ctx.layers@.len();
            let (before, after) = (
                kv[layer as int],
                decode_plan::all_kv_after(mode, kv)[layer as int],
            );
            &&& follows(before, after, decode_plan::chain_ops(ctx, kv, mode, aux, n), layer)
            &&& mode is Host ==> follows(before, after, decode_plan::fused_ops(ctx, kv, n), layer)
        }),
{
    let n = ctx.layers@.len();
    lemma_chain_added(ctx, kv, mode, aux, n, layer);
    lemma_fused_added(ctx, kv, n, layer);
    assert(ctx.layers@[layer as int].mixer is Full || ctx.layers@[layer as int].mixer is Linear);
}

/// The same of a refused step: the caches of the layers up to the obstacle took the row, and no
/// other.
pub proof fn law_refused_lengths_follow_rows(
    ctx: StepContext,
    kv: Seq<Option<KvMeta>>,
    mode: Counting,
    aux: Seq<usize>,
    pos: usize,
    token: u32,
    layer: usize,
)
    requires
        ctx.kv_ready(kv),
        ctx.layers@.len() <= usize::MAX,
        layer < ctx.layers@.len(),
        !(mode is Captured),
        ctx.first_obstacle(ctx.layers@.len()) is Some,
    ensures
        ({
            let (before, after) = (
                kv[layer as int],
                decode_plan::kv_refused(ctx, mode, kv)[layer as int],
            );
            &&& follows(before, after, decode_plan::refused_chain_ops(ctx, kv, mode, aux), layer)
            &&& mode is Host ==> follows(
                before,
                after,
                decode_plan::refused_h_ops(ctx, kv, pos, token),
                layer,
            )
        }),
{
    let n = ctx.layers@.len();
    law_first_obstacle(ctx, n);
    let c = ctx.clear_layers(n);
    let il = c as int;
    let pre = ctx.fuses_in(il);
    assert(ctx.layers@[layer as int].mixer is Full || ctx.layers@[layer as int].mixer is Linear);
    assert(ctx.layers@[il].mixer is Full || ctx.layers@[il].mixer is Linear);
    lemma_chain_added(ctx, kv, mode, aux, c, layer);
    lemma_fused_added(ctx, kv, c, layer);
    lemma_rest_added(ctx, il, aux, layer);
    lemma_open_added(ctx, kv[il], il, layer);
    lemma_mixer_added(ctx, il, kv[il], mode, pre, layer);
    let norm = decode_plan::norm_in_ops(ctx, il);
    let mixer = decode_plan::mixer_ops(ctx, il, kv[il], mode, pre);
    let refused = decode_plan::refused_mixer_ops(ctx, il, kv[il], mode, pre);
    let open = decode_plan::open_ops(ctx, kv[il], il);
    let stop = decode_plan::refused_residual_ops(ctx, il);
    lemma_added_concat(norm, mixer, layer);
    lemma_added_concat(norm + mixer, stop, layer);
    lemma_added_concat(open, stop, layer);
    if ctx.layers@[il].mixer is Full {
        lemma_attention_added(ctx, il, kv[il], mode, pre, layer);
        lemma_added_concat(norm, refused, layer);
    }
    let before = decode_plan::chain_ops(ctx, kv, mode, aux, c);
    lemma_added_concat(before, decode_plan::chain_stop_ops(ctx, kv[il], mode, il), layer);
    let input = decode_plan::host_input_ops(pos, token, ctx.cfg.n_embd);
    let fused = decode_plan::fused_ops(ctx, kv, c);
    let end = decode_plan::fused_stop_ops(ctx, kv[il], il);
    lemma_added_concat(fused, end, layer);
    assert(launch::spares(input, Buf::KCache { seq: 0, layer }));
    lemma_added_none(input, layer);
    lemma_added_concat(input, fused + end, layer);
}

/// A dense block that is refused stops where its activation would read both projections: what is
/// left of the whole block is the activation and the down projection.
pub proof fn law_refused_block_stops_at_activation(ctx: StepContext, il: int)
    requires
        ctx.ffn_blocked(il),
    ensures
        decode_plan::residual_ops(ctx, il) == decode_plan::refused_residual_ops(ctx, il)
            + ffn::ffn_tail_ops(
            il as usize,
            ctx.layers@[il].ffn->ffn_down.q8_1_fast,
            ctx.layers@[il].ffn->ffn_gate.out_f,
        ),
{
    let a = decode_plan::refused_residual_ops(ctx, il);
    let b = decode_plan::residual_ops(ctx, il);
    let t = ffn::ffn_tail_ops(
        il as usize,
        ctx.layers@[il].ffn->ffn_down.q8_1_fast,
        ctx.layers@[il].ffn->ffn_gate.out_f,
    );
    assert(b =~= a + t);
}

} // verus!
