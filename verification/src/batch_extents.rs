//! Every launch of a batched step reaches the row of every sequence.

use vstd::prelude::*;

use crate::attention;
use crate::batch;
use crate::config::{Ffn, FullAttnLayer, GpuTensor, LinearAttnLayer, Mixer};
use crate::decode_plan::{StepCache, StepContext};
use crate::extent::{
    alike, elems, flow, lemma_flow, lemma_flow0, lemma_flow1, lemma_flow2, lemma_flow3,
    lemma_flow4, lemma_flow5, next, parted, projected, row, whole, Extents, Shapes,
};
use crate::extent_laws::{
    caches_shaped, dense_shaped, full_shaped, layer_shaped, lemma_linear_flows, linear_shaped, maps,
};
use crate::launch::{Buf, Op, Slot, Weight};
use crate::recurrent;
use crate::step_extents::model_shaped;

verus! {

/// Between layers there is one residual row, and one position, for every sequence.
pub open spec fn at_rows(e: Extents, b: int, n_embd: int) -> bool {
    e[Buf::X] == whole(b as nat, n_embd as nat) && e[Buf::Pos].rows == b
}

pub proof fn lemma_rows_heads(b: nat, heads: nat, dim: nat)
    ensures
        (b * heads) * dim == b * (heads * dim),
        dim * heads == heads * dim,
        heads * (2 * dim) == 2 * (heads * dim),
{
    assert((b * heads) * dim == b * (heads * dim)) by (nonlinear_arith);
    assert(dim * heads == heads * dim) by (nonlinear_arith);
    assert(heads * (2 * dim) == 2 * (heads * dim)) by (nonlinear_arith);
}

/// The attention inputs of all rows.
spec fn heads_ready(e: Extents, ctx: StepContext, b: int) -> bool {
    let (q, kv) = (ctx.cfg.q_dim() as nat, ctx.cfg.kv_dim() as nat);
    &&& alike(e[Buf::Qn], whole(b as nat, q))
    &&& alike(e[Buf::Kn], whole(b as nat, kv))
    &&& alike(e[Buf::V], whole(b as nat, kv))
    &&& e[Buf::Attn] == whole(b as nat, q)
    &&& ctx.cfg.attn_out_gate ==> alike(e[Buf::Gate], whole(b as nat, q))
    &&& at_rows(e, b, ctx.cfg.n_embd as int)
}

proof fn lemma_rows_head_flows(
    m: Shapes,
    e: Extents,
    ctx: StepContext,
    fa: FullAttnLayer,
    il: int,
    b: usize,
) -> (e1: Extents)
    requires
        0 <= il <= usize::MAX,
        full_shaped(m, ctx.cfg, il as usize, fa),
        ctx.cfg.fits_rows(b as int),
        at_rows(e, b as int, ctx.cfg.n_embd as int),
        e[Buf::Xn] == whole(b as nat, ctx.cfg.n_embd as nat),
        e[Buf::Hq] == whole(b as nat, ctx.cfg.n_embd as nat),
        e[Buf::Hd] == whole(b as nat, ctx.cfg.n_embd as nat),
    ensures
        flow(m, e, batch::rows_head_ops(ctx, il, b)) == Some(e1),
        heads_ready(e1, ctx, b as int),
{
    lemma_flow(m);
    let c = ctx.cfg;
    let (hd, nh, nkv, dims) = (c.head_dim_k, c.n_head, c.n_head_kv, c.rope_dim_count);
    lemma_rows_heads(b as nat, nh as nat, hd as nat);
    lemma_rows_heads(b as nat, nkv as nat, hd as nat);
    let ops = batch::rows_head_ops(ctx, il, b);
    let (q, d, src) = (Buf::Hq, Buf::Hd, Buf::Xn);
    let o0 = Op::MatmulPre { w: batch::lw(il, Slot::Wq), q, d, src, dst: Buf::Qf, rows: b };
    let o1 = Op::MatmulPre { w: batch::lw(il, Slot::Wk), q, d, src, dst: Buf::K, rows: b };
    let o2 = Op::MatmulPre { w: batch::lw(il, Slot::Wv), q, d, src, dst: Buf::V, rows: b };
    lemma_flow3(m, e, o0, o1, o2);
    let e2 = flow(m, e, seq![o0, o1, o2])->0;
    assert(flow(m, e, seq![o0, o1, o2]) == Some(e2));
    let split = Op::QGateSplit {
        src: Buf::Qf,
        q: Buf::Q,
        gate: Buf::Gate,
        head_dim: hd,
        n_head: nh,
        rows: b,
    };
    lemma_flow0(m, e2);
    lemma_flow1(m, e2, split);
    let e3 = if c.attn_out_gate {
        next(m, Some(e2), split)->0
    } else {
        e2
    };
    let qs = if c.attn_out_gate {
        Buf::Q
    } else {
        Buf::Qf
    };
    assert(e3[qs] == parted(b as nat, c.q_dim() as nat, hd as nat));
    let tail = seq![
        Op::RmsNorm {
            src: qs,
            w: batch::lw(il, Slot::QNorm),
            dst: Buf::Qn,
            dim: hd,
            rows: (b * nh) as usize,
        },
        Op::RmsNorm {
            src: Buf::K,
            w: batch::lw(il, Slot::KNorm),
            dst: Buf::Kn,
            dim: hd,
            rows: (b * nkv) as usize,
        },
        Op::Rope { buf: Buf::Qn, head_dim: hd, dims, heads: nh, rows: b },
        Op::Rope { buf: Buf::Kn, head_dim: hd, dims, heads: nkv, rows: b },
        Op::Alloc { dst: Buf::Attn, rows: b, dim: c.q_dim() as usize },
    ];
    lemma_flow5(m, e3, tail[0], tail[1], tail[2], tail[3], tail[4]);
    flow(m, e3, tail)->0
}

proof fn lemma_attend_flows(
    m: Shapes,
    e: Extents,
    ctx: StepContext,
    caches: Seq<StepCache>,
    fa: FullAttnLayer,
    il: int,
    b: usize,
    k: nat,
) -> (e1: Extents)
    requires
        0 <= il < ctx.layers@.len() <= usize::MAX,
        ctx.layers@[il].mixer is Full,
        full_shaped(m, ctx.cfg, il as usize, fa),
        ctx.cfg.fits_rows(b as int),
        k <= b,
        b == caches.len(),
        forall|i: int|
            #![trigger caches[i]]
            0 <= i < caches.len() ==> ctx.kv_ready(caches[i].kv@) && caches_shaped(
                m,
                i as usize,
                caches[i].kv@,
            ),
        heads_ready(e, ctx, b as int),
    ensures
        flow(m, e, batch::attend_ops(il, caches, ctx.cfg.q_dim() as usize, k)) == Some(e1),
        heads_ready(e1, ctx, b as int),
    decreases k,
{
    lemma_flow0(m, e);
    if k == 0 {
        e
    } else {
        lemma_flow(m);
        let e0 = lemma_attend_flows(m, e, ctx, caches, fa, il, b, (k - 1) as nat);
        let i = (k - 1) as usize;
        let kv = caches[k - 1].kv@[il]->0;
        assert(ctx.kv_ready(caches[k - 1].kv@));
        assert(ctx.layers@[il].mixer is Full);
        assert((m.kv)(i, il as usize) == kv);
        let ops = batch::seq_attend_ops(il, i, kv, ctx.cfg.q_dim() as usize);
        lemma_flow4(m, e0, ops[0], ops[1], ops[2], ops[3]);
        assert(ops =~= seq![ops[0], ops[1], ops[2], ops[3]]);
        flow(m, e0, ops)->0
    }
}

/// The output gate goes over the attention result of every sequence.
proof fn lemma_rows_out_flows(
    m: Shapes,
    e: Extents,
    ctx: StepContext,
    fa: FullAttnLayer,
    il: int,
    b: usize,
) -> (e1: Extents)
    requires
        0 <= il <= usize::MAX,
        full_shaped(m, ctx.cfg, il as usize, fa),
        ctx.cfg.fits_rows(b as int),
        heads_ready(e, ctx, b as int),
    ensures
        flow(m, e, batch::rows_out_ops(ctx, il, b)) == Some(e1),
        e1[Buf::Mixed] == whole(b as nat, ctx.cfg.n_embd as nat),
        at_rows(e1, b as int, ctx.cfg.n_embd as int),
{
    lemma_flow(m);
    let n = (b * ctx.cfg.q_dim()) as usize;
    let w = batch::lw(il, Slot::Wo);
    lemma_flow3(
        m,
        e,
        Op::Sigmoid { src: Buf::Gate, dst: Buf::GateSig, n },
        Op::Mul { a: Buf::Attn, b: Buf::GateSig, dst: Buf::AttnGated, n },
        Op::Matmul { w, src: Buf::AttnGated, dst: Buf::Mixed, rows: b },
    );
    lemma_flow1(m, e, Op::Matmul { w, src: Buf::Attn, dst: Buf::Mixed, rows: b });
    flow(m, e, batch::rows_out_ops(ctx, il, b))->0
}

/// The inputs of the recurrent mixers of all rows, and the place of their results.
spec fn recur_ready(e: Extents, n_embd: int, b: int) -> bool {
    let all = whole(b as nat, n_embd as nat);
    &&& e[Buf::Xn] == all
    &&& e[Buf::Hq] == all
    &&& e[Buf::Hd] == all
    &&& e[Buf::Mixed] == all
    &&& at_rows(e, b, n_embd)
}

proof fn lemma_recur_flows(
    m: Shapes,
    e: Extents,
    ctx: StepContext,
    la: LinearAttnLayer,
    il: int,
    b: usize,
    k: nat,
) -> (e1: Extents)
    requires
        0 <= il < ctx.layers@.len() <= usize::MAX,
        ctx.layers@[il].mixer == Mixer::Linear(la),
        ctx.cfg.ssm is Some,
        ctx.cfg.ssm->0.fits(),
        linear_shaped(m, ctx.cfg.ssm->0, ctx.cfg.n_embd as int, il as usize, la),
        k <= b,
        recur_ready(e, ctx.cfg.n_embd as int, b as int),
    ensures
        flow(m, e, batch::recur_ops(ctx, la, il, k)) == Some(e1),
        recur_ready(e1, ctx.cfg.n_embd as int, b as int),
    decreases k,
{
    lemma_flow0(m, e);
    if k == 0 {
        e
    } else {
        lemma_flow(m);
        let e0 = lemma_recur_flows(m, e, ctx, la, il, b, (k - 1) as nat);
        let i = (k - 1) as usize;
        let dim = ctx.cfg.n_embd;
        let t0 = Op::TakeRow { src: Buf::Xn, row: i, dst: Buf::XnRow, dim };
        let t1 = Op::TakeRow { src: Buf::Hq, row: i, dst: Buf::HqRow, dim };
        let t2 = Op::TakeRow { src: Buf::Hd, row: i, dst: Buf::HdRow, dim };
        lemma_flow3(m, e0, t0, t1, t2);
        let e2 = flow(m, e0, seq![t0, t1, t2])->0;
        assert(flow(m, e0, seq![t0, t1, t2]) == Some(e2));
        let e3 = lemma_linear_flows(
            m,
            e2,
            ctx.cfg.ssm->0,
            dim,
            i,
            il as usize,
            la,
            ctx.layers@[il].kernels,
            ctx.layers@[il].mixer.in_fast(),
            false,
            batch::seq_io(),
        );
        let put = Op::PutRow { src: Buf::MixedRow, dst: Buf::Mixed, row: i, dim };
        lemma_flow1(m, e3, put);
        next(m, Some(e3), put)->0
    }
}

proof fn lemma_rows_dense_flows(
    m: Shapes,
    e: Extents,
    n_embd: usize,
    gate: GpuTensor,
    up: GpuTensor,
    down: GpuTensor,
    il: int,
    b: usize,
) -> (e1: Extents)
    requires
        0 <= il <= usize::MAX,
        dense_shaped(m, n_embd as int, il as usize, gate, up, down),
        b * gate.out_f <= usize::MAX,
        e[Buf::Z] == whole(b as nat, n_embd as nat),
    ensures
        flow(m, e, batch::rows_dense_ops(il, b, gate.out_f, n_embd)) == Some(e1),
        e1[Buf::FfnOut] == whole(b as nat, n_embd as nat),
        e1[Buf::X] == e[Buf::X],
        e1[Buf::X1] == e[Buf::X1],
        e1[Buf::Pos] == e[Buf::Pos],
{
    lemma_flow(m);
    let ops = batch::rows_dense_ops(il, b, gate.out_f, n_embd);
    let (x, y) = (seq![ops[0], ops[1], ops[2]], seq![ops[3], ops[4], ops[5]]);
    assert(ops =~= x + y);
    lemma_flow3(m, e, ops[0], ops[1], ops[2]);
    let e0 = flow(m, e, x)->0;
    assert(flow(m, e, x) == Some(e0));
    lemma_flow3(m, e0, ops[3], ops[4], ops[5]);
    flow(m, e0, y)->0
}

proof fn lemma_rows_ffn_flows(
    m: Shapes,
    e: Extents,
    ctx: StepContext,
    il: int,
    b: usize,
) -> (e1: Extents)
    requires
        0 <= il < ctx.layers@.len() <= usize::MAX,
        layer_shaped(m, ctx, il),
        batch::rows_fit(ctx, b as int),
        at_rows(e, b as int, ctx.cfg.n_embd as int),
        e[Buf::Mixed] == whole(b as nat, ctx.cfg.n_embd as nat),
    ensures
        flow(m, e, batch::rows_ffn_ops(ctx, il, b)) == Some(e1),
        at_rows(e1, b as int, ctx.cfg.n_embd as int),
{
    lemma_flow(m);
    let dim = ctx.cfg.n_embd;
    let add = Op::AddRmsNorm {
        a: Buf::X,
        b: Buf::Mixed,
        w: batch::lw(il, Slot::PostAttnNorm),
        sum: Buf::X1,
        dst: Buf::Z,
        dim,
        rows: b,
    };
    lemma_flow1(m, e, add);
    let e0 = next(m, Some(e), add)->0;
    assert(ctx.layers@[il].ffn == ctx.layers@[il].ffn);
    let e2 = match ctx.layers@[il].ffn {
        Ffn::Dense { ffn_gate, ffn_up, ffn_down } => lemma_rows_dense_flows(
            m,
            e0,
            dim,
            ffn_gate,
            ffn_up,
            ffn_down,
            il,
            b,
        ),
        Ffn::Moe => {
            let moe = Op::MoeFfn { layer: il as usize, src: Buf::Z, dst: Buf::FfnOut, rows: b };
            lemma_flow1(m, e0, moe);
            next(m, Some(e0), moe)->0
        },
    };
    let close = Op::Add { a: Buf::X1, b: Buf::FfnOut, dst: Buf::X, n: (b * dim) as usize };
    lemma_flow1(m, e2, close);
    next(m, Some(e2), close)->0
}

proof fn lemma_layers_flow(
    m: Shapes,
    e: Extents,
    ctx: StepContext,
    caches: Seq<StepCache>,
    b: usize,
    n: nat,
) -> (e1: Extents)
    requires
        ctx.wf(),
        model_shaped(m, ctx),
        batch::rows_fit(ctx, b as int),
        b == caches.len(),
        n <= ctx.layers@.len(),
        forall|i: int|
            #![trigger caches[i]]
            0 <= i < caches.len() ==> ctx.kv_ready(caches[i].kv@) && caches_shaped(
                m,
                i as usize,
                caches[i].kv@,
            ),
        at_rows(e, b as int, ctx.cfg.n_embd as int),
    ensures
        flow(m, e, batch::layers_ops(ctx, caches, b, n)) == Some(e1),
        at_rows(e1, b as int, ctx.cfg.n_embd as int),
    decreases n,
{
    lemma_flow0(m, e);
    if n == 0 {
        e
    } else {
        lemma_flow(m);
        let il = n - 1;
        let dim = ctx.cfg.n_embd;
        let e0 = lemma_layers_flow(m, e, ctx, caches, b, il as nat);
        assert(layer_shaped(m, ctx, il)) by {
            assert(ctx.layers@[il] == ctx.layers@[il]);
        }
        let norm = Op::RmsNorm {
            src: Buf::X,
            w: batch::lw(il, Slot::AttnNorm),
            dst: Buf::Xn,
            dim,
            rows: b,
        };
        let quantize = Op::Quantize { src: Buf::Xn, q: Buf::Hq, d: Buf::Hd, rows: b, dim };
        lemma_flow2(m, e0, norm, quantize);
        let e2 = next(m, next(m, Some(e0), norm), quantize)->0;
        assert(flow(m, e0, batch::rows_in_ops(ctx, il, b)) == Some(e2));
        let e3 = match ctx.layers@[il].mixer {
            Mixer::Full(fa) => {
                let e4 = lemma_rows_head_flows(m, e2, ctx, fa, il, b);
                let e5 = lemma_attend_flows(m, e4, ctx, caches, fa, il, b, b as nat);
                lemma_rows_out_flows(m, e5, ctx, fa, il, b)
            },
            Mixer::Linear(la) => {
                let alloc = Op::Alloc { dst: Buf::Mixed, rows: b, dim };
                lemma_flow1(m, e2, alloc);
                let e4 = next(m, Some(e2), alloc)->0;
                lemma_recur_flows(m, e4, ctx, la, il, b, b as nat)
            },
        };
        assert(flow(m, e2, batch::rows_mixer_ops(ctx, caches, il, b)) == Some(e3));
        lemma_rows_ffn_flows(m, e3, ctx, il, b)
    }
}

proof fn lemma_input_flows(
    m: Shapes,
    e: Extents,
    tokens: Seq<u32>,
    caches: Seq<StepCache>,
    dim: usize,
    k: nat,
)
    requires
        k <= tokens.len() <= usize::MAX,
        m.embed == dim,
        at_rows(e, tokens.len() as int, dim as int),
    ensures
        flow(m, e, batch::input_ops(tokens, caches, dim, k)) == Some(e),
    decreases k,
{
    lemma_flow0(m, e);
    if k > 0 {
        lemma_flow(m);
        lemma_input_flows(m, e, tokens, caches, dim, (k - 1) as nat);
        let i = (k - 1) as usize;
        lemma_flow2(
            m,
            e,
            Op::SetPos { row: i, pos: caches[k - 1].pos },
            Op::EmbedHost { row: i, token: tokens[k - 1], dim },
        );
    }
}

/// In a step of several sequences every launch reaches the row of every sequence, and every head
/// and element of it: the elements that a launch processes are those of a row times the number of
/// sequences. The step leaves one row of logits per sequence.
pub proof fn law_batch_reaches_all(
    m: Shapes,
    e: Extents,
    ctx: StepContext,
    tokens: Seq<u32>,
    caches: Seq<StepCache>,
)
    requires
        ctx.wf(),
        model_shaped(m, ctx),
        tokens.len() == caches.len(),
        tokens.len() <= usize::MAX,
        batch::rows_fit(ctx, tokens.len() as int),
        forall|i: int|
            #![trigger caches[i]]
            0 <= i < caches.len() ==> ctx.kv_ready(caches[i].kv@) && caches_shaped(
                m,
                i as usize,
                caches[i].kv@,
            ),
    ensures
        flow(m, e, batch::batch_ops(ctx, tokens, caches)) matches Some(e1) && e1[Buf::Logits]
            == whole(tokens.len(), ctx.cfg.n_vocab as nat),
{
    lemma_flow(m);
    let b = tokens.len() as usize;
    let dim = ctx.cfg.n_embd;
    let a0 = Op::Alloc { dst: Buf::Pos, rows: b, dim: 1 };
    let a1 = Op::Alloc { dst: Buf::X, rows: b, dim };
    lemma_flow2(m, e, a0, a1);
    let e0 = next(m, next(m, Some(e), a0), a1)->0;
    lemma_input_flows(m, e0, tokens, caches, dim, tokens.len());
    assert(flow(m, e, batch::start_ops(ctx, tokens, caches)) == Some(e0));
    let e1 = lemma_layers_flow(m, e0, ctx, caches, b, ctx.layers@.len());
    lemma_flow2(
        m,
        e1,
        Op::RmsNorm {
            src: Buf::X,
            w: Weight::Model(Slot::OutputNorm),
            dst: Buf::Hn,
            dim,
            rows: b,
        },
        Op::Matmul { w: Weight::Model(Slot::Output), src: Buf::Hn, dst: Buf::Logits, rows: b },
    );
}

} // verus!
