//! Every launch of a whole decode step, in all its forms, reaches all of its buffers.

use vstd::prelude::*;

use crate::attention::KvMeta;
use crate::decode_plan;
use crate::decode_plan::{Counting, StepContext};
use crate::extent::{
    alike, flow, lemma_flow, lemma_flow0, lemma_flow1, lemma_flow2, lemma_flow3, lemma_flow4, next,
    row, Extents, Shapes,
};
use crate::extent_laws::{
    at_layer, caches_shaped, layer_shaped, lemma_attn_in_flows, lemma_mixer_flows,
    lemma_residual_flows, maps,
};
use crate::launch::{Buf, Op, Slot, Weight};

verus! {

/// The shapes of a whole model: its layers, and the head over its vocabulary.
pub open spec fn model_shaped(m: Shapes, ctx: StepContext) -> bool {
    let c = ctx.cfg;
    &&& m.embed == c.n_embd
    &&& ctx.layers@.len() <= usize::MAX
    &&& forall|il: int|
        #![trigger ctx.layers@[il]]
        0 <= il < ctx.layers@.len() ==> layer_shaped(m, ctx, il)
    &&& (m.vector)(Weight::Model(Slot::OutputNorm)) == c.n_embd
    &&& maps(
        m,
        Weight::Model(Slot::Output),
        c.n_embd as int,
        c.n_vocab as int,
        c.n_vocab as int,
    )
}

proof fn lemma_keep_flows(
    m: Shapes,
    e: Extents,
    aux: Seq<usize>,
    il: int,
    k: nat,
    n_embd: int,
) -> (e1: Extents)
    requires
        k <= aux.len(),
        at_layer(e, n_embd),
    ensures
        flow(m, e, decode_plan::keep_ops(aux, il, k)) == Some(e1),
        at_layer(e1, n_embd),
    decreases k,
{
    lemma_flow0(m, e);
    if k == 0 {
        e
    } else {
        lemma_flow(m);
        let e0 = lemma_keep_flows(m, e, aux, il, (k - 1) as nat, n_embd);
        lemma_flow0(m, e0);
        let op = Op::Clone { src: Buf::X, dst: Buf::Aux((k - 1) as usize) };
        lemma_flow1(m, e0, op);
        if aux[k - 1] == il {
            next(m, Some(e0), op)->0
        } else {
            e0
        }
    }
}

proof fn lemma_close_flows(m: Shapes, e: Extents, n_embd: usize) -> (e1: Extents)
    requires
        e[Buf::X1] == row(n_embd as nat),
        e[Buf::FfnOut] == row(n_embd as nat),
        e[Buf::Pos].rows == 1,
    ensures
        flow(m, e, decode_plan::close_ops(n_embd)) == Some(e1),
        at_layer(e1, n_embd as int),
{
    lemma_flow(m);
    let op = Op::Add { a: Buf::X1, b: Buf::FfnOut, dst: Buf::X, n: n_embd };
    lemma_flow1(m, e, op);
    next(m, Some(e), op)->0
}

proof fn lemma_chain_flows(
    m: Shapes,
    e: Extents,
    ctx: StepContext,
    kv: Seq<Option<KvMeta>>,
    mode: Counting,
    aux: Seq<usize>,
    n: nat,
) -> (e1: Extents)
    requires
        ctx.wf(),
        ctx.kv_ready(kv),
        caches_shaped(m, 0, kv),
        model_shaped(m, ctx),
        n <= ctx.layers@.len(),
        ctx.first_obstacle(n) is None,
        at_layer(e, ctx.cfg.n_embd as int),
    ensures
        flow(m, e, decode_plan::chain_ops(ctx, kv, mode, aux, n)) == Some(e1),
        at_layer(e1, ctx.cfg.n_embd as int),
    decreases n,
{
    lemma_flow0(m, e);
    if n == 0 {
        e
    } else {
        lemma_flow(m);
        let il = n - 1;
        let e0 = lemma_chain_flows(m, e, ctx, kv, mode, aux, il as nat);
        assert(layer_shaped(m, ctx, il)) by {
            assert(ctx.layers@[il] == ctx.layers@[il]);
        }
        let e2 = lemma_attn_in_flows(m, e0, ctx, kv, il, mode);
        let e3 = lemma_residual_flows(m, e2, ctx, il);
        let e4 = lemma_close_flows(m, e3, ctx.cfg.n_embd);
        lemma_keep_flows(m, e4, aux, il, aux.len(), ctx.cfg.n_embd as int)
    }
}

/// After a layer of the fused form both addends of the next residual row are there.
spec fn open_layer(e: Extents, n_embd: int) -> bool {
    &&& e[Buf::X1] == row(n_embd as nat)
    &&& e[Buf::FfnOut] == row(n_embd as nat)
    &&& at_layer(e, n_embd)
}

proof fn lemma_open_flows(
    m: Shapes,
    e: Extents,
    ctx: StepContext,
    kv: Seq<Option<KvMeta>>,
    il: int,
) -> (e1: Extents)
    requires
        ctx.wf(),
        ctx.kv_ready(kv),
        caches_shaped(m, 0, kv),
        model_shaped(m, ctx),
        0 <= il < ctx.layers@.len(),
        at_layer(e, ctx.cfg.n_embd as int),
        il > 0 ==> open_layer(e, ctx.cfg.n_embd as int),
    ensures
        flow(m, e, decode_plan::open_ops(ctx, kv[il], il)) == Some(e1),
        e1[Buf::Mixed] == row(ctx.cfg.n_embd as nat),
        at_layer(e1, ctx.cfg.n_embd as int),
{
    lemma_flow(m);
    let dim = ctx.cfg.n_embd;
    assert(layer_shaped(m, ctx, il)) by {
        assert(ctx.layers@[il] == ctx.layers@[il]);
    }
    if il > 0 && ctx.fuses_in(il) {
        let op = Op::AddRmsNormQ8 {
            a: Buf::X1,
            b: Buf::FfnOut,
            w: Weight::Layer(il as usize, Slot::AttnNorm),
            sum: Buf::X,
            q: Buf::Hq,
            d: Buf::Hd,
            dim,
            rows: 1,
        };
        lemma_flow1(m, e, op);
        let e0 = next(m, Some(e), op)->0;
        lemma_mixer_flows(m, e0, ctx, kv, il, Counting::Host, true)
    } else if il > 0 {
        let e0 = lemma_close_flows(m, e, dim);
        lemma_attn_in_flows(m, e0, ctx, kv, il, Counting::Host)
    } else {
        lemma_attn_in_flows(m, e, ctx, kv, il, Counting::Host)
    }
}

proof fn lemma_fused_flows(
    m: Shapes,
    e: Extents,
    ctx: StepContext,
    kv: Seq<Option<KvMeta>>,
    n: nat,
) -> (e1: Extents)
    requires
        ctx.wf(),
        ctx.kv_ready(kv),
        caches_shaped(m, 0, kv),
        model_shaped(m, ctx),
        n <= ctx.layers@.len(),
        ctx.first_obstacle(n) is None,
        at_layer(e, ctx.cfg.n_embd as int),
    ensures
        flow(m, e, decode_plan::fused_ops(ctx, kv, n)) == Some(e1),
        at_layer(e1, ctx.cfg.n_embd as int),
        n > 0 ==> open_layer(e1, ctx.cfg.n_embd as int),
    decreases n,
{
    lemma_flow0(m, e);
    if n == 0 {
        e
    } else {
        lemma_flow(m);
        let il = n - 1;
        let e0 = lemma_fused_flows(m, e, ctx, kv, il as nat);
        let e2 = lemma_open_flows(m, e0, ctx, kv, il);
        assert(layer_shaped(m, ctx, il)) by {
            assert(ctx.layers@[il] == ctx.layers@[il]);
        }
        lemma_residual_flows(m, e2, ctx, il)
    }
}

proof fn lemma_host_input_flows(
    m: Shapes,
    e: Extents,
    pos: usize,
    token: u32,
    n_embd: usize,
) -> (e1: Extents)
    requires
        m.embed == n_embd,
    ensures
        flow(m, e, decode_plan::host_input_ops(pos, token, n_embd)) == Some(e1),
        at_layer(e1, n_embd as int),
{
    let ops = decode_plan::host_input_ops(pos, token, n_embd);
    lemma_flow4(m, e, ops[0], ops[1], ops[2], ops[3]);
    assert(ops =~= seq![ops[0], ops[1], ops[2], ops[3]]);
    flow(m, e, ops)->0
}

proof fn lemma_out_norm_flows(m: Shapes, e: Extents, ctx: StepContext) -> (e1: Extents)
    requires
        model_shaped(m, ctx),
        at_layer(e, ctx.cfg.n_embd as int),
    ensures
        flow(m, e, decode_plan::out_norm_ops(ctx.cfg.n_embd)) == Some(e1),
        e1[Buf::Hn] == row(ctx.cfg.n_embd as nat),
        at_layer(e1, ctx.cfg.n_embd as int),
{
    lemma_flow(m);
    let op = Op::RmsNorm {
        src: Buf::X,
        w: Weight::Model(Slot::OutputNorm),
        dst: Buf::Hn,
        dim: ctx.cfg.n_embd,
        rows: 1,
    };
    lemma_flow1(m, e, op);
    next(m, Some(e), op)->0
}

/// In a step that keeps the hidden state every launch reaches all of its buffers: every head is
/// normalized, rotated and gated, every hidden element activated, every element of the residual
/// summed. The step leaves one logit per token of the vocabulary, and a whole hidden state.
pub proof fn law_step_reaches_all(
    m: Shapes,
    e: Extents,
    ctx: StepContext,
    kv: Seq<Option<KvMeta>>,
    pos: usize,
    token: u32,
    hpost: bool,
)
    requires
        ctx.wf(),
        ctx.kv_ready(kv),
        caches_shaped(m, 0, kv),
        model_shaped(m, ctx),
        ctx.first_obstacle(ctx.layers@.len()) is None,
    ensures
        flow(m, e, decode_plan::step_h_ops(ctx, kv, pos, token, hpost)) matches Some(e1)
            && e1[Buf::Logits] == row(ctx.cfg.n_vocab as nat) && e1[Buf::HSeed] == row(
            ctx.cfg.n_embd as nat,
        ),
{
    lemma_flow(m);
    let n = ctx.layers@.len();
    let dim = ctx.cfg.n_embd;
    let e0 = lemma_host_input_flows(m, e, pos, token, dim);
    let e1 = lemma_fused_flows(m, e0, ctx, kv, n);
    lemma_flow0(m, e1);
    let e2 = if n > 0 {
        lemma_close_flows(m, e1, dim)
    } else {
        e1
    };
    let e3 = lemma_out_norm_flows(m, e2, ctx);
    let seed = Op::Clone {
        src: if hpost {
            Buf::Hn
        } else {
            Buf::X
        },
        dst: Buf::HSeed,
    };
    let head = Op::Matmul {
        w: Weight::Model(Slot::Output),
        src: Buf::Hn,
        dst: Buf::Logits,
        rows: 1,
    };
    lemma_flow1(m, e3, seed);
    let e4 = next(m, Some(e3), seed)->0;
    lemma_flow1(m, e4, head);
    assert(flow(m, e3, seq![seed] + decode_plan::lm_head_ops()) == next(m, Some(e4), head));
}

/// The same of a step that keeps the outputs of some layers.
pub proof fn law_aux_step_reaches_all(
    m: Shapes,
    e: Extents,
    ctx: StepContext,
    kv: Seq<Option<KvMeta>>,
    pos: usize,
    token: u32,
    aux: Seq<usize>,
)
    requires
        ctx.wf(),
        ctx.kv_ready(kv),
        caches_shaped(m, 0, kv),
        model_shaped(m, ctx),
        ctx.first_obstacle(ctx.layers@.len()) is None,
    ensures
        flow(m, e, decode_plan::step_aux_ops(ctx, kv, pos, token, aux)) matches Some(e1)
            && e1[Buf::Logits] == row(ctx.cfg.n_vocab as nat),
{
    lemma_flow(m);
    let dim = ctx.cfg.n_embd;
    let e0 = lemma_host_input_flows(m, e, pos, token, dim);
    let e1 = lemma_chain_flows(m, e0, ctx, kv, Counting::Host, aux, ctx.layers@.len());
    let e2 = lemma_out_norm_flows(m, e1, ctx);
    lemma_flow1(
        m,
        e2,
        Op::Matmul { w: Weight::Model(Slot::Output), src: Buf::Hn, dst: Buf::Logits, rows: 1 },
    );
}

/// The same of a step with token, position and lengths on the device, captured or not; its greedy
/// choice is among all tokens of the vocabulary.
pub proof fn law_counted_step_reaches_all(
    m: Shapes,
    e: Extents,
    ctx: StepContext,
    kv: Seq<Option<KvMeta>>,
    mode: Counting,
)
    requires
        ctx.wf(),
        ctx.kv_ready(kv),
        caches_shaped(m, 0, kv),
        model_shaped(m, ctx),
        ctx.first_obstacle(ctx.layers@.len()) is None,
        e[Buf::Pos] == row(1),
    ensures
        flow(m, e, decode_plan::step_counted_ops(ctx, kv, mode, ctx.cfg.n_vocab)) matches Some(e1)
            && e1[Buf::Logits] == row(ctx.cfg.n_vocab as nat),
{
    lemma_flow(m);
    let dim = ctx.cfg.n_embd;
    let embed = Op::EmbedDevice { dim };
    lemma_flow1(m, e, embed);
    let e0 = next(m, Some(e), embed)->0;
    let e1 = lemma_chain_flows(m, e0, ctx, kv, mode, Seq::empty(), ctx.layers@.len());
    let e2 = lemma_out_norm_flows(m, e1, ctx);
    let head = Op::Matmul {
        w: Weight::Model(Slot::Output),
        src: Buf::Hn,
        dst: Buf::Logits,
        rows: 1,
    };
    lemma_flow1(m, e2, head);
    let e3 = next(m, Some(e2), head)->0;
    lemma_flow2(m, e3, Op::Argmax { src: Buf::Logits, n: ctx.cfg.n_vocab }, Op::IncPos);
}

} // verus!
