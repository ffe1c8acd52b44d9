//! Every launch of the draft models reaches all of its buffers.

use vstd::prelude::*;

use crate::attention::KvMeta;
use crate::batch_extents::lemma_rows_heads;
use crate::decode_plan;
use crate::dflash;
use crate::dflash::{DflashCfg, DflashDraft, DflashOptions};
use crate::eagle_draft;
use crate::eagle_draft::Eagle3Draft;
use crate::extent::{
    alike, elems, flow, lemma_flow, lemma_flow0, lemma_flow1, lemma_flow2, lemma_flow3,
    lemma_flow4, lemma_flow5, next, parted, parts_len, row, whole, Extents, Shapes,
};
use crate::extent_laws::maps;
use crate::gemma_draft;
use crate::gemma_draft::{CacheRows, DraftContext, GemmaDraft};
use crate::launch::{Buf, Op, Slot, Weight};

verus! {

/// The shapes of the drafter over hidden states.
pub open spec fn hidden_drafter_shaped(m: Shapes, d: Eagle3Draft) -> bool {
    let w = |slot: Slot| Weight::Layer(0, slot);
    let (n, hd, n_ff) = (d.n_embd as int, d.head_dim as int, d.n_ff as int);
    let (q, kv) = (d.n_head * d.head_dim, d.n_head_kv * d.head_dim);
    &&& m.embed == n
    &&& (m.rope)(hd as nat) == d.rope_dim_count
    &&& (m.query)(0) == q
    &&& (m.cache)(0) == kv
    &&& (m.vector)(w(Slot::AttnNorm)) == n
    &&& (m.vector)(w(Slot::HiddenNorm)) == n
    &&& (m.vector)(w(Slot::PostAttnNorm)) == n
    &&& (m.vector)(Weight::Model(Slot::OutputNorm)) == n
    &&& maps(m, Weight::Model(Slot::Fc), d.aux_layers@.len() * n, n, n)
    &&& maps(m, w(Slot::Wq), 2 * n, q, hd)
    &&& maps(m, w(Slot::Wk), 2 * n, kv, hd)
    &&& maps(m, w(Slot::Wv), 2 * n, kv, hd)
    &&& maps(m, w(Slot::Wo), q, n, n)
    &&& maps(m, w(Slot::FfnGate), n, n_ff, n_ff)
    &&& maps(m, w(Slot::FfnUp), n, n_ff, n_ff)
    &&& maps(m, w(Slot::FfnDown), n_ff, n, n)
    &&& maps(
        m,
        Weight::Model(Slot::Output),
        n,
        d.draft_vocab as int,
        d.draft_vocab as int,
    )
}

proof fn lemma_join_flows(m: Shapes, e: Extents, n: usize, parts: nat, k: nat)
    requires
        k <= parts <= usize::MAX,
        e[Buf::Cat] == parted(1, parts_len(parts as int, n as int) as nat, n as nat),
        forall|i: usize| i < parts ==> alike(#[trigger] e[Buf::Aux(i)], row(n as nat)),
    ensures
        flow(m, e, eagle_draft::join_ops(n, k)) == Some(e),
    decreases k,
{
    lemma_flow0(m, e);
    if k > 0 {
        lemma_flow(m);
        lemma_join_flows(m, e, n, parts, (k - 1) as nat);
        let i = (k - 1) as usize;
        let op = Op::CopyPart { src: Buf::Aux(i), dst: Buf::Cat, part: i, n };
        assert((i + 1) * n <= parts * n) by (nonlinear_arith)
            requires
                i + 1 <= parts,
        ;
        assert(parts_len(i + 1, n as int) <= parts_len(parts as int, n as int));
        assert(alike(e[Buf::Aux(i)], row(n as nat)));
        lemma_flow1(m, e, op);
        assert(eagle_draft::join_ops(n, k) =~= eagle_draft::join_ops(n, (k - 1) as nat) + seq![op]);
    }
}

/// The encoder joins the whole outputs of all auxiliary layers and gives a whole state.
pub proof fn law_encoder_reaches_all(m: Shapes, e: Extents, d: Eagle3Draft)
    requires
        hidden_drafter_shaped(m, d),
        d.aux_layers@.len() <= usize::MAX,
        forall|i: usize|
            i < d.aux_layers@.len() ==> alike(
                #[trigger] e[Buf::Aux(i)],
                row(d.n_embd as nat),
            ),
    ensures
        flow(m, e, eagle_draft::encode_ops(d.n_embd, d.aux_layers@.len())) matches Some(e1)
            && e1[Buf::G] == row(d.n_embd as nat),
{
    lemma_flow(m);
    let n = d.n_embd;
    let parts = d.aux_layers@.len();
    let a = Op::AllocParts { dst: Buf::Cat, parts: parts as usize, n };
    lemma_flow1(m, e, a);
    let e0 = next(m, Some(e), a)->0;
    assert forall|i: usize| i < parts implies alike(#[trigger] e0[Buf::Aux(i)], row(n as nat)) by {
        assert(e0[Buf::Aux(i)] == e[Buf::Aux(i)]);
    }
    lemma_join_flows(m, e0, n, parts, parts);
    lemma_flow1(
        m,
        e0,
        Op::Matmul { w: Weight::Model(Slot::Fc), src: Buf::Cat, dst: Buf::G, rows: 1 },
    );
}

proof fn lemma_hidden_in_flows(
    m: Shapes,
    e: Extents,
    d: Eagle3Draft,
    pos: usize,
    token: u32,
) -> (e1: Extents)
    requires
        hidden_drafter_shaped(m, d),
        e[Buf::G] == row(d.n_embd as nat),
    ensures
        flow(m, e, eagle_draft::draft_in_ops(d.n_embd, pos, token)) == Some(e1),
        alike(e1[Buf::Cat], row((2 * d.n_embd) as nat)),
        e1[Buf::Res] == row(d.n_embd as nat),
        e1[Buf::Pos].rows == 1,
{
    lemma_flow(m);
    let n = d.n_embd;
    let input = decode_plan::host_input_ops(pos, token, n);
    lemma_flow4(m, e, input[0], input[1], input[2], input[3]);
    assert(input =~= seq![input[0], input[1], input[2], input[3]]);
    let e0 = flow(m, e, input)->0;
    assert(flow(m, e, input) == Some(e0));
    assert(e0[Buf::X] == row(n as nat) && e0[Buf::G] == row(n as nat) && e0[Buf::Pos].rows == 1);
    let n0 = Op::RmsNorm {
        src: Buf::X,
        w: Weight::Layer(0, Slot::AttnNorm),
        dst: Buf::EmbNorm,
        dim: n,
        rows: 1,
    };
    let n1 = Op::Clone { src: Buf::G, dst: Buf::Res };
    let n2 = Op::RmsNorm {
        src: Buf::G,
        w: Weight::Layer(0, Slot::HiddenNorm),
        dst: Buf::GNorm,
        dim: n,
        rows: 1,
    };
    lemma_flow3(m, e0, n0, n1, n2);
    let e1 = flow(m, e0, seq![n0, n1, n2])->0;
    assert(flow(m, e0, seq![n0, n1, n2]) == Some(e1));
    assert(e1[Buf::EmbNorm] == row(n as nat) && e1[Buf::GNorm] == row(n as nat));
    let e2 = lemma_cat_flows(m, e1, n);
    e2
}

proof fn lemma_cat_flows(m: Shapes, e: Extents, n: usize) -> (e1: Extents)
    requires
        e[Buf::EmbNorm] == row(n as nat),
        e[Buf::GNorm] == row(n as nat),
    ensures
        flow(m, e, eagle_draft::cat_ops(n)) == Some(e1),
        alike(e1[Buf::Cat], row((2 * n) as nat)),
        e1[Buf::Res] == e[Buf::Res],
        e1[Buf::Pos] == e[Buf::Pos],
{
    lemma_flow(m);
    lemma_flow3(
        m,
        e,
        Op::AllocParts { dst: Buf::Cat, parts: 2, n },
        Op::CopyPart { src: Buf::EmbNorm, dst: Buf::Cat, part: 0, n },
        Op::CopyPart { src: Buf::GNorm, dst: Buf::Cat, part: 1, n },
    );
    flow(m, e, eagle_draft::cat_ops(n))->0
}

proof fn lemma_hidden_attention_flows(
    m: Shapes,
    e: Extents,
    d: Eagle3Draft,
    kv: KvMeta,
) -> (e1: Extents)
    requires
        hidden_drafter_shaped(m, d),
        kv.has_room(),
        (m.kv)(0, 0) == kv,
        alike(e[Buf::Cat], row((2 * d.n_embd) as nat)),
        e[Buf::Pos].rows == 1,
    ensures
        flow(m, e, eagle_draft::draft_attn_ops(d, kv)) == Some(e1),
        e1[Buf::Mixed] == row(d.n_embd as nat),
        e1[Buf::Res] == e[Buf::Res],
{
    lemma_flow(m);
    let (hd, nh, nkv, dims) = (d.head_dim, d.n_head, d.n_head_kv, d.rope_dim_count);
    let q = Op::Matmul { w: Weight::Layer(0, Slot::Wq), src: Buf::Cat, dst: Buf::Q, rows: 1 };
    let k = Op::Matmul { w: Weight::Layer(0, Slot::Wk), src: Buf::Cat, dst: Buf::K, rows: 1 };
    let v = Op::Matmul { w: Weight::Layer(0, Slot::Wv), src: Buf::Cat, dst: Buf::V, rows: 1 };
    let rq = Op::Rope { buf: Buf::Q, head_dim: hd, dims, heads: nh, rows: 1 };
    lemma_flow4(m, e, q, k, v, rq);
    let e0 = flow(m, e, seq![q, k, v, rq])->0;
    assert(flow(m, e, seq![q, k, v, rq]) == Some(e0));
    assert(e0[Buf::Q] == parted(1, (nh * hd) as nat, hd as nat));
    assert(e0[Buf::K] == parted(1, (nkv * hd) as nat, hd as nat));
    assert(e0[Buf::V] == parted(1, (nkv * hd) as nat, hd as nat));
    lemma_flow4(
        m,
        e0,
        Op::Rope { buf: Buf::K, head_dim: hd, dims, heads: nkv, rows: 1 },
        Op::AppendKv { seq: 0, layer: 0, k: Buf::K, v: Buf::V, at: kv.len },
        Op::FaDecode {
            seq: 0,
            layer: 0,
            q: Buf::Q,
            dst: Buf::Attn,
            t_kv: (kv.len + 1) as usize,
            k_bytes: ((kv.len + 1) * kv.k_tok_bytes) as usize,
            v_bytes: ((kv.len + 1) * kv.v_tok_bytes) as usize,
        },
        Op::Matmul { w: Weight::Layer(0, Slot::Wo), src: Buf::Attn, dst: Buf::Mixed, rows: 1 },
    );
    flow(m, e, eagle_draft::draft_attn_ops(d, kv))->0
}

proof fn lemma_hidden_out_flows(m: Shapes, e: Extents, d: Eagle3Draft) -> (e1: Extents)
    requires
        hidden_drafter_shaped(m, d),
        e[Buf::Mixed] == row(d.n_embd as nat),
        e[Buf::Res] == row(d.n_embd as nat),
    ensures
        flow(m, e, eagle_draft::draft_out_ops(d.n_embd, d.n_ff)) == Some(e1),
        e1[Buf::G] == row(d.n_embd as nat),
        e1[Buf::Logits] == row(d.draft_vocab as nat),
{
    lemma_flow(m);
    let (n, n_ff) = (d.n_embd, d.n_ff);
    let a0 = Op::Add { a: Buf::Mixed, b: Buf::Res, dst: Buf::X1, n };
    let a1 = Op::RmsNorm {
        src: Buf::X1,
        w: Weight::Layer(0, Slot::PostAttnNorm),
        dst: Buf::Z,
        dim: n,
        rows: 1,
    };
    let wg = Weight::Layer(0, Slot::FfnGate);
    let wu = Weight::Layer(0, Slot::FfnUp);
    let a2 = Op::Matmul { w: wg, src: Buf::Z, dst: Buf::FfnGate, rows: 1 };
    let a3 = Op::Matmul { w: wu, src: Buf::Z, dst: Buf::FfnUp, rows: 1 };
    lemma_flow4(m, e, a0, a1, a2, a3);
    let e0 = flow(m, e, seq![a0, a1, a2, a3])->0;
    assert(flow(m, e, seq![a0, a1, a2, a3]) == Some(e0));
    assert(e0[Buf::FfnGate] == row(n_ff as nat) && e0[Buf::FfnUp] == row(n_ff as nat));
    assert(e0[Buf::X1] == row(n as nat));
    let (gate, up) = (Buf::FfnGate, Buf::FfnUp);
    let b0 = Op::FfnAct { gate, up, dst: Buf::Act, n: n_ff, m3: false };
    let wd = Weight::Layer(0, Slot::FfnDown);
    let b1 = Op::Matmul { w: wd, src: Buf::Act, dst: Buf::FfnOut, rows: 1 };
    let b2 = Op::Add { a: Buf::FfnOut, b: Buf::X1, dst: Buf::G, n };
    lemma_flow3(m, e0, b0, b1, b2);
    let e2 = flow(m, e0, seq![b0, b1, b2])->0;
    assert(flow(m, e0, seq![b0, b1, b2]) == Some(e2));
    assert(e2[Buf::G] == row(n as nat));
    lemma_flow2(
        m,
        e2,
        Op::RmsNorm {
            src: Buf::G,
            w: Weight::Model(Slot::OutputNorm),
            dst: Buf::Hn,
            dim: n,
            rows: 1,
        },
        Op::Matmul { w: Weight::Model(Slot::Output), src: Buf::Hn, dst: Buf::Logits, rows: 1 },
    );
    flow(m, e, eagle_draft::draft_out_ops(n, n_ff))->0
}

/// A step of the drafter over hidden states reaches all elements of both of its inputs, all heads
/// and the whole draft vocabulary.
pub proof fn law_hidden_draft_reaches_all(
    m: Shapes,
    e: Extents,
    d: Eagle3Draft,
    kv: KvMeta,
    pos: usize,
    token: u32,
)
    requires
        hidden_drafter_shaped(m, d),
        kv.has_room(),
        (m.kv)(0, 0) == kv,
        e[Buf::G] == row(d.n_embd as nat),
    ensures
        flow(m, e, eagle_draft::draft_ops(d, kv, pos, token)) matches Some(e1) && e1[Buf::G] == row(
            d.n_embd as nat,
        ) && e1[Buf::Logits] == row(d.draft_vocab as nat),
{
    lemma_flow(m);
    let e0 = lemma_hidden_in_flows(m, e, d, pos, token);
    let e1 = lemma_hidden_attention_flows(m, e0, d, kv);
    lemma_hidden_out_flows(m, e1, d);
}

/// The shapes of a layer of the drafter of whole blocks.
pub open spec fn block_layer_shaped(m: Shapes, c: DflashCfg, il: usize) -> bool {
    let w = |slot: Slot| Weight::Layer(il, slot);
    let (n, hd, n_ff) = (c.hidden as int, c.head_dim as int, c.n_ff as int);
    let (q, kv) = (c.n_head * c.head_dim, c.n_kv * c.head_dim);
    &&& (m.vector)(w(Slot::AttnNorm)) == n
    &&& (m.vector)(w(Slot::FfnNorm)) == n
    &&& (m.vector)(w(Slot::QNorm)) == hd
    &&& (m.vector)(w(Slot::KNorm)) == hd
    &&& maps(m, w(Slot::Wq), n, q, hd)
    &&& maps(m, w(Slot::Wk), n, kv, hd)
    &&& maps(m, w(Slot::Wv), n, kv, hd)
    &&& maps(m, w(Slot::Wo), q, n, n)
    &&& maps(m, w(Slot::FfnGate), n, n_ff, n_ff)
    &&& maps(m, w(Slot::FfnUp), n, n_ff, n_ff)
    &&& maps(m, w(Slot::FfnDown), n_ff, n, n)
}

/// The shapes of the drafter of whole blocks, which reads `taps` elements of every context row.
pub open spec fn block_drafter_shaped(m: Shapes, d: DflashDraft, taps: int) -> bool {
    let c = d.cfg;
    let n = c.hidden as int;
    &&& (m.rope)(c.head_dim as nat) == c.head_dim
    &&& d.layers@.len() <= usize::MAX
    &&& maps(m, Weight::Model(Slot::Fc), taps, n, n)
    &&& (m.vector)(Weight::Model(Slot::HiddenNorm)) == n
    &&& (m.vector)(Weight::Model(Slot::OutputNorm)) == n
    &&& forall|il: usize| il < d.layers@.len() ==> #[trigger] block_layer_shaped(m, c, il)
}

/// Between layers: the block's rows, the context's features, and the positions of both.
pub open spec fn at_block(e: Extents, c: DflashCfg, ctx: int) -> bool {
    let (b, n) = (c.block_size as nat, c.hidden as nat);
    &&& e[Buf::X] == whole(b, n)
    &&& e[Buf::CtxF] == whole(ctx as nat, n)
    &&& e[Buf::PosBlk].rows == b
    &&& e[Buf::Pos].rows == ctx + b
}

proof fn lemma_pos_flows(m: Shapes, e: Extents, dst: Buf, pos: Seq<i32>, from: int, k: nat)
    requires
        k <= e[dst].rows,
        k <= usize::MAX,
    ensures
        flow(m, e, dflash::pos_ops(dst, pos, from, k)) == Some(e),
    decreases k,
{
    lemma_flow0(m, e);
    if k > 0 {
        lemma_flow(m);
        lemma_pos_flows(m, e, dst, pos, from, (k - 1) as nat);
        let op = Op::PutPos { dst, row: (k - 1) as usize, value: pos[from + k - 1] };
        lemma_flow1(m, e, op);
        assert(dflash::pos_ops(dst, pos, from, k) =~= dflash::pos_ops(
            dst,
            pos,
            from,
            (k - 1) as nat,
        ) + seq![op]);
    }
}

/// The projections of block and context.
spec fn block_projected(e: Extents, c: DflashCfg, ctx: int) -> bool {
    let (b, hd) = (c.block_size as nat, c.head_dim as nat);
    let kv = (c.n_kv * c.head_dim) as nat;
    &&& e[Buf::Qf] == parted(b, (c.n_head * c.head_dim) as nat, hd)
    &&& e[Buf::KCtx] == parted(ctx as nat, kv, hd)
    &&& e[Buf::VCtx] == parted(ctx as nat, kv, hd)
    &&& e[Buf::KBlk] == parted(b, kv, hd)
    &&& e[Buf::VBlk] == parted(b, kv, hd)
    &&& at_block(e, c, ctx)
}

proof fn lemma_block_proj_flows(
    m: Shapes,
    e: Extents,
    c: DflashCfg,
    il: usize,
    ctx: usize,
) -> (e1: Extents)
    requires
        block_layer_shaped(m, c, il),
        at_block(e, c, ctx as int),
    ensures
        flow(m, e, dflash::proj_ops(c, il, ctx)) == Some(e1),
        block_projected(e1, c, ctx as int),
{
    lemma_flow(m);
    let b = c.block_size;
    let p = dflash::proj_ops(c, il, ctx);
    let (wq, wk, wv) = (
        dflash::lw(il, Slot::Wq),
        dflash::lw(il, Slot::Wk),
        dflash::lw(il, Slot::Wv),
    );
    let n = Op::RmsNorm {
        src: Buf::X,
        w: dflash::lw(il, Slot::AttnNorm),
        dst: Buf::Xn,
        dim: c.hidden,
        rows: b,
    };
    let q = Op::Matmul { w: wq, src: Buf::Xn, dst: Buf::Qf, rows: b };
    let kc = Op::Matmul { w: wk, src: Buf::CtxF, dst: Buf::KCtx, rows: ctx };
    let vc = Op::Matmul { w: wv, src: Buf::CtxF, dst: Buf::VCtx, rows: ctx };
    let kb = Op::Matmul { w: wk, src: Buf::Xn, dst: Buf::KBlk, rows: b };
    let vb = Op::Matmul { w: wv, src: Buf::Xn, dst: Buf::VBlk, rows: b };
    assert(p =~= seq![n, q, kc] + seq![vc, kb, vb]);
    lemma_flow3(m, e, n, q, kc);
    let e0 = flow(m, e, seq![n, q, kc])->0;
    assert(flow(m, e, seq![n, q, kc]) == Some(e0));
    assert(e0[Buf::Xn] == whole(b as nat, c.hidden as nat));
    lemma_flow3(m, e0, vc, kb, vb);
    flow(m, e0, seq![vc, kb, vb])->0
}

proof fn lemma_block_stack_flows(
    m: Shapes,
    e: Extents,
    c: DflashCfg,
    il: usize,
    ctx: usize,
) -> (e1: Extents)
    requires
        block_layer_shaped(m, c, il),
        c.fits(ctx as int),
        block_projected(e, c, ctx as int),
    ensures
        flow(m, e, dflash::stack_ops(c, il, ctx)) == Some(e1),
        e1[Buf::Kn] == parted(
            (ctx + c.block_size) as nat,
            (c.n_kv * c.head_dim) as nat,
            c.head_dim as nat,
        ),
        e1[Buf::V] == e1[Buf::Kn],
        e1[Buf::Q] == e[Buf::Qf],
        at_block(e1, c, ctx as int),
{
    lemma_flow(m);
    let b = c.block_size;
    let (hd, nh, nkv) = (c.head_dim, c.n_head, c.n_kv);
    let kv = nkv * hd;
    let rows = (ctx + b) as nat;
    lemma_rows_heads(b as nat, nh as nat, hd as nat);
    lemma_rows_heads(rows, nkv as nat, hd as nat);
    assert(ctx * kv <= (ctx + b) * kv && b * kv <= (ctx + b) * kv) by (nonlinear_arith)
        requires
            0 <= ctx,
            0 <= b,
            0 <= kv,
    ;
    let (n_a, n_b) = ((ctx * kv) as usize, (b * kv) as usize);
    assert(n_a == elems(e[Buf::KCtx]) && n_b == elems(e[Buf::KBlk]));
    assert(n_a == elems(e[Buf::VCtx]) && n_b == elems(e[Buf::VBlk]));
    let k = Op::StackRows { a: Buf::KCtx, b: Buf::KBlk, dst: Buf::K, n_a, n_b };
    let v = Op::StackRows { a: Buf::VCtx, b: Buf::VBlk, dst: Buf::V, n_a, n_b };
    lemma_flow2(m, e, k, v);
    let e0 = flow(m, e, seq![k, v])->0;
    assert(flow(m, e, seq![k, v]) == Some(e0));
    assert(e0[Buf::K] == parted(rows, kv as nat, hd as nat));
    assert(e0[Buf::V] == parted(rows, kv as nat, hd as nat));
    let qn = Op::RmsNorm {
        src: Buf::Qf,
        w: dflash::lw(il, Slot::QNorm),
        dst: Buf::Q,
        dim: hd,
        rows: (b * nh) as usize,
    };
    let kn = Op::RmsNorm {
        src: Buf::K,
        w: dflash::lw(il, Slot::KNorm),
        dst: Buf::Kn,
        dim: hd,
        rows: ((ctx + b) * nkv) as usize,
    };
    lemma_flow2(m, e0, qn, kn);
    assert(dflash::stack_ops(c, il, ctx) =~= seq![k, v] + seq![qn, kn]);
    flow(m, e0, seq![qn, kn])->0
}

proof fn lemma_block_attention_flows(
    m: Shapes,
    e: Extents,
    c: DflashCfg,
    il: usize,
    ctx: usize,
    o: DflashOptions,
) -> (e1: Extents)
    requires
        block_layer_shaped(m, c, il),
        (m.rope)(c.head_dim as nat) == c.head_dim,
        c.fits(ctx as int),
        at_block(e, c, ctx as int),
    ensures
        flow(
            m,
            e,
            dflash::proj_ops(c, il, ctx) + dflash::stack_ops(c, il, ctx) + dflash::rope_ops(
                c,
                ctx,
                o.norope,
            ) + dflash::attn_ops(c, il, ctx, o.fused),
        ) == Some(e1),
        e1[Buf::X1] == whole(c.block_size as nat, c.hidden as nat),
        at_block(e1, c, ctx as int),
{
    lemma_flow(m);
    let b = c.block_size;
    let (hd, nh, nkv) = (c.head_dim, c.n_head, c.n_kv);
    let kv = nkv * hd;
    let rows = (ctx + b) as nat;
    let e2 = lemma_block_proj_flows(m, e, c, il, ctx);
    let e3 = lemma_block_stack_flows(m, e2, c, il, ctx);
    let r = dflash::rope_ops(c, ctx, o.norope);
    lemma_flow0(m, e3);
    if !o.norope {
        lemma_flow2(m, e3, r[0], r[1]);
        assert(r =~= seq![r[0], r[1]]);
    }
    assert(flow(m, e3, r) == Some(e3));
    let a = dflash::attn_ops(c, il, ctx, o.fused);
    lemma_flow3(m, e3, a[0], a[1], a[2]);
    assert(a =~= seq![a[0], a[1], a[2]]);
    flow(m, e3, a)->0
}

proof fn lemma_block_feed_flows(
    m: Shapes,
    e: Extents,
    c: DflashCfg,
    il: usize,
    ctx: usize,
) -> (e1: Extents)
    requires
        block_layer_shaped(m, c, il),
        c.fits(ctx as int),
        at_block(e, c, ctx as int),
        e[Buf::X1] == whole(c.block_size as nat, c.hidden as nat),
    ensures
        flow(m, e, dflash::gate_ops(c, il) + dflash::down_ops(c, il)) == Some(e1),
        at_block(e1, c, ctx as int),
{
    lemma_flow(m);
    let g = dflash::gate_ops(c, il);
    lemma_flow4(m, e, g[0], g[1], g[2], g[3]);
    assert(g =~= seq![g[0], g[1], g[2], g[3]]);
    let e0 = flow(m, e, g)->0;
    assert(flow(m, e, g) == Some(e0));
    let d = dflash::down_ops(c, il);
    lemma_flow2(m, e0, d[0], d[1]);
    assert(d =~= seq![d[0], d[1]]);
    flow(m, e0, d)->0
}

proof fn lemma_block_layers_flow(
    m: Shapes,
    e: Extents,
    d: DflashDraft,
    taps: int,
    ctx: usize,
    o: DflashOptions,
    n: nat,
) -> (e1: Extents)
    requires
        block_drafter_shaped(m, d, taps),
        d.cfg.fits(ctx as int),
        n <= d.layers@.len(),
        at_block(e, d.cfg, ctx as int),
    ensures
        flow(m, e, dflash::layers_ops(d.cfg, ctx, o, n)) == Some(e1),
        at_block(e1, d.cfg, ctx as int),
    decreases n,
{
    lemma_flow0(m, e);
    if n == 0 {
        e
    } else {
        lemma_flow(m);
        let c = d.cfg;
        let il = (n - 1) as usize;
        let e0 = lemma_block_layers_flow(m, e, d, taps, ctx, o, (n - 1) as nat);
        assert(block_layer_shaped(m, c, il));
        let e2 = lemma_block_attention_flows(m, e0, c, il, ctx, o);
        let e3 = lemma_block_feed_flows(m, e2, c, il, ctx);
        let attention = dflash::proj_ops(c, il, ctx) + dflash::stack_ops(c, il, ctx)
            + dflash::rope_ops(c, ctx, o.norope) + dflash::attn_ops(c, il, ctx, o.fused);
        let feed = dflash::gate_ops(c, il) + dflash::down_ops(c, il);
        assert(dflash::layer_ops(c, il, ctx, o) =~= attention + feed);
        e3
    }
}

/// A pass of the drafter of whole blocks reaches every row of the context and of the block, and
/// every head and element of them. It leaves one hidden row per place of the block.
pub proof fn law_block_draft_reaches_all(
    m: Shapes,
    e: Extents,
    d: DflashDraft,
    taps: int,
    pos: Seq<i32>,
    ctx: usize,
    o: DflashOptions,
)
    requires
        block_drafter_shaped(m, d, taps),
        d.cfg.fits(ctx as int),
        0 <= taps,
        alike(e[Buf::Cat], whole(ctx as nat, taps as nat)),
        e[Buf::Noise] == whole(d.cfg.block_size as nat, d.cfg.hidden as nat),
    ensures
        flow(m, e, dflash::forward_ops(d, pos, ctx, o)) matches Some(e1) && e1[Buf::Hn] == whole(
            d.cfg.block_size as nat,
            d.cfg.hidden as nat,
        ),
{
    lemma_flow(m);
    let c = d.cfg;
    let b = c.block_size;
    let start = dflash::start_ops(c, pos, ctx);
    let head = seq![start[0], start[1], start[2], start[3], start[4]];
    let blk = dflash::pos_ops(Buf::PosBlk, pos, ctx as int, b as nat);
    let all = dflash::pos_ops(Buf::Pos, pos, 0, (ctx + b) as nat);
    assert(start =~= head + blk + all);
    lemma_flow5(m, e, start[0], start[1], start[2], start[3], start[4]);
    let e0 = flow(m, e, head)->0;
    assert(flow(m, e, head) == Some(e0));
    assert(at_block(e0, c, ctx as int));
    lemma_pos_flows(m, e0, Buf::PosBlk, pos, ctx as int, b as nat);
    lemma_pos_flows(m, e0, Buf::Pos, pos, 0, (ctx + b) as nat);
    assert(flow(m, e, start) == Some(e0));
    let e1 = lemma_block_layers_flow(m, e0, d, taps, ctx, o, d.layers@.len());
    let tail = dflash::tail_op(c);
    lemma_flow1(m, e1, tail);
    let body = start + dflash::layers_ops(c, ctx, o, d.layers@.len());
    assert(dflash::forward_ops(d, pos, ctx, o) =~= body + seq![tail]);
}

/// The shapes of a layer of the assistant drafter, with the cache of the main layer it reads.
pub open spec fn assistant_layer_shaped(
    m: Shapes,
    d: GemmaDraft,
    cx: DraftContext,
    il: int,
) -> bool {
    let l = d.layers@[il];
    let w = |slot: Slot| Weight::Layer(il as usize, slot);
    let n = d.n_embd as int;
    let n_ff = l.ffn_gate.out_f as int;
    let at = cx.target(l.swa) as usize;
    let kv = cx.kv@[at as int]->Some_0;
    &&& (m.rope)(l.hd as nat) == l.hd
    &&& (m.vector)(w(Slot::AttnNorm)) == n
    &&& (m.vector)(w(Slot::QNorm)) == l.hd
    &&& (m.vector)(w(Slot::PostAttnNorm)) == n
    &&& (m.vector)(w(Slot::FfnNorm)) == n
    &&& (m.vector)(w(Slot::FfnPostNorm)) == n
    &&& maps(m, w(Slot::Wq), n, l.nh * l.hd, l.hd as int)
    &&& maps(m, w(Slot::Wo), l.nh * l.hd, n, n)
    &&& maps(m, w(Slot::FfnGate), n, n_ff, n_ff)
    &&& maps(m, w(Slot::FfnUp), n, n_ff, n_ff)
    &&& maps(m, w(Slot::FfnDown), n_ff, n, n)
    &&& (m.cache)(at) == kv.kv_dim_k
    &&& (m.kv)(0, at).len == kv.len
    &&& (m.window)(at) == (if l.swa {
        Some(d.sliding_window as nat)
    } else {
        None
    })
    &&& (m.narrow)(at) == (l.swa && cx.wkv)
    &&& cx.rows matches CacheRows::Counted { bucket } ==> m.grid == bucket
    &&& kv.kv_dim_k as int % l.hd as int == 0
}

/// The shapes of the assistant drafter.
pub open spec fn assistant_shaped(m: Shapes, d: GemmaDraft, cx: DraftContext) -> bool {
    let (n, nb) = (d.n_embd as int, d.n_backbone as int);
    &&& m.embed == nb
    &&& d.layers@.len() <= usize::MAX
    &&& maps(m, Weight::Model(Slot::PreProj), 2 * nb, n, n)
    &&& maps(m, Weight::Model(Slot::PostProj), n, nb, nb)
    &&& (m.vector)(Weight::Model(Slot::OutputNorm)) == n
    &&& (m.inp)(Weight::Model(Slot::Output)) == n
    &&& forall|il: int|
        0 <= il < d.layers@.len() ==> #[trigger] assistant_layer_shaped(m, d, cx, il)
}

/// Between layers there is one row, and one position.
pub open spec fn at_draft_layer(e: Extents, n_embd: int) -> bool {
    e[Buf::X1] == row(n_embd as nat) && e[Buf::Pos].rows == 1
}

proof fn lemma_assistant_query_flows(
    m: Shapes,
    e: Extents,
    d: GemmaDraft,
    cx: DraftContext,
    il: int,
) -> (e1: Extents)
    requires
        0 <= il < d.layers@.len() <= usize::MAX,
        assistant_layer_shaped(m, d, cx, il),
        at_draft_layer(e, d.n_embd as int),
    ensures
        flow(m, e, gemma_draft::query_ops(d.layers@[il], il as usize, d.n_embd)) == Some(e1),
        e1[Buf::Q] == parted(
            1,
            (d.layers@[il].nh * d.layers@[il].hd) as nat,
            d.layers@[il].hd as nat,
        ),
        at_draft_layer(e1, d.n_embd as int),
{
    lemma_flow(m);
    let l = d.layers@[il];
    let i = il as usize;
    let n = d.n_embd;
    let rope = if l.swa {
        Op::Rope { buf: Buf::Q, head_dim: l.hd, dims: l.hd, heads: l.nh, rows: 1 }
    } else {
        Op::RopeFactors { buf: Buf::Q, head_dim: l.hd, heads: l.nh }
    };
    lemma_flow4(
        m,
        e,
        Op::RmsNorm {
            src: Buf::X1,
            w: Weight::Layer(i, Slot::AttnNorm),
            dst: Buf::H,
            dim: n,
            rows: 1,
        },
        Op::Matmul { w: Weight::Layer(i, Slot::Wq), src: Buf::H, dst: Buf::Qf, rows: 1 },
        Op::RmsNorm {
            src: Buf::Qf,
            w: Weight::Layer(i, Slot::QNorm),
            dst: Buf::Q,
            dim: l.hd,
            rows: l.nh,
        },
        rope,
    );
    flow(m, e, gemma_draft::query_ops(l, i, n))->0
}

proof fn lemma_assistant_attend_flows(
    m: Shapes,
    e: Extents,
    d: GemmaDraft,
    cx: DraftContext,
    il: int,
) -> (e1: Extents)
    requires
        0 <= il < d.layers@.len() <= usize::MAX,
        cx.serves(&d),
        assistant_layer_shaped(m, d, cx, il),
        at_draft_layer(e, d.n_embd as int),
        e[Buf::Q] == parted(
            1,
            (d.layers@[il].nh * d.layers@[il].hd) as nat,
            d.layers@[il].hd as nat,
        ),
    ensures
        ({
            let l = d.layers@[il];
            let at = cx.target(l.swa) as usize;
            let kv = cx.kv@[at as int]->Some_0;
            flow(
                m,
                e,
                seq![gemma_draft::attend_op(l, at, kv, d.sliding_window, cx.rows, cx.wkv)],
            ) == Some(e1)
        }),
        e1[Buf::Attn] == e[Buf::Q],
        at_draft_layer(e1, d.n_embd as int),
{
    lemma_flow(m);
    let l = d.layers@[il];
    let at = cx.target(l.swa) as usize;
    let kv = cx.kv@[at as int]->Some_0;
    let heads = kv.kv_dim_k as int / l.hd as int;
    assert(heads * l.hd == kv.kv_dim_k && 0 <= heads <= kv.kv_dim_k) by (nonlinear_arith)
        requires
            heads == kv.kv_dim_k as int / l.hd as int,
            kv.kv_dim_k as int % l.hd as int == 0,
            l.hd > 0,
            kv.kv_dim_k >= 0,
    ;
    let a = gemma_draft::attend_op(l, at, kv, d.sliding_window, cx.rows, cx.wkv);
    lemma_flow1(m, e, a);
    next(m, Some(e), a)->0
}

proof fn lemma_assistant_out_flows(
    m: Shapes,
    e: Extents,
    d: GemmaDraft,
    cx: DraftContext,
    il: int,
) -> (e1: Extents)
    requires
        0 <= il < d.layers@.len() <= usize::MAX,
        assistant_layer_shaped(m, d, cx, il),
        at_draft_layer(e, d.n_embd as int),
        alike(e[Buf::Attn], row((d.layers@[il].nh * d.layers@[il].hd) as nat)),
    ensures
        flow(m, e, gemma_draft::out_ops(il as usize, d.n_embd)) == Some(e1),
        e1[Buf::Res] == row(d.n_embd as nat),
        at_draft_layer(e1, d.n_embd as int),
{
    lemma_flow(m);
    let i = il as usize;
    let n = d.n_embd;
    lemma_flow3(
        m,
        e,
        Op::Matmul { w: Weight::Layer(i, Slot::Wo), src: Buf::Attn, dst: Buf::Mixed, rows: 1 },
        Op::RmsNorm {
            src: Buf::Mixed,
            w: Weight::Layer(i, Slot::PostAttnNorm),
            dst: Buf::MixedRow,
            dim: n,
            rows: 1,
        },
        Op::Add { a: Buf::MixedRow, b: Buf::X1, dst: Buf::Res, n },
    );
    flow(m, e, gemma_draft::out_ops(i, n))->0
}

proof fn lemma_assistant_feed_flows(
    m: Shapes,
    e: Extents,
    d: GemmaDraft,
    cx: DraftContext,
    il: int,
) -> (e1: Extents)
    requires
        0 <= il < d.layers@.len() <= usize::MAX,
        assistant_layer_shaped(m, d, cx, il),
        e[Buf::Pos].rows == 1,
        e[Buf::Res] == row(d.n_embd as nat),
    ensures
        flow(
            m,
            e,
            gemma_draft::gate_ops(d.layers@[il], il as usize, d.n_embd) + gemma_draft::down_ops(
                il as usize,
                d.n_embd,
            ),
        ) == Some(e1),
        at_draft_layer(e1, d.n_embd as int),
{
    lemma_flow(m);
    let l = d.layers@[il];
    let i = il as usize;
    let n = d.n_embd;
    lemma_flow4(
        m,
        e,
        Op::RmsNorm {
            src: Buf::Res,
            w: Weight::Layer(i, Slot::FfnNorm),
            dst: Buf::Z,
            dim: n,
            rows: 1,
        },
        Op::Matmul { w: Weight::Layer(i, Slot::FfnGate), src: Buf::Z, dst: Buf::FfnGate, rows: 1 },
        Op::Matmul { w: Weight::Layer(i, Slot::FfnUp), src: Buf::Z, dst: Buf::FfnUp, rows: 1 },
        Op::GeluMul { gate: Buf::FfnGate, up: Buf::FfnUp, dst: Buf::Act, n: l.ffn_gate.out_f },
    );
    let g = gemma_draft::gate_ops(l, i, n);
    let e0 = flow(m, e, g)->0;
    assert(flow(m, e, g) == Some(e0));
    assert(e0[Buf::Act] == row(l.ffn_gate.out_f as nat) && e0[Buf::Res] == e[Buf::Res]);
    lemma_flow3(
        m,
        e0,
        Op::Matmul { w: Weight::Layer(i, Slot::FfnDown), src: Buf::Act, dst: Buf::FfnOut, rows: 1 },
        Op::RmsNorm {
            src: Buf::FfnOut,
            w: Weight::Layer(i, Slot::FfnPostNorm),
            dst: Buf::Xn,
            dim: n,
            rows: 1,
        },
        Op::AddScaled { a: Buf::Xn, b: Buf::Res, dst: Buf::X1, layer: i, n },
    );
    flow(m, e0, gemma_draft::down_ops(i, n))->0
}

proof fn lemma_assistant_layer_flows(
    m: Shapes,
    e: Extents,
    d: GemmaDraft,
    cx: DraftContext,
    il: int,
) -> (e1: Extents)
    requires
        0 <= il < d.layers@.len() <= usize::MAX,
        cx.serves(&d),
        assistant_layer_shaped(m, d, cx, il),
        at_draft_layer(e, d.n_embd as int),
    ensures
        flow(m, e, gemma_draft::layer_ops(d, cx, il as usize)) == Some(e1),
        at_draft_layer(e1, d.n_embd as int),
{
    lemma_flow(m);
    let l = d.layers@[il];
    let i = il as usize;
    let n = d.n_embd;
    let at = cx.target(l.swa) as usize;
    let kv = cx.kv@[at as int]->Some_0;
    let e0 = lemma_assistant_query_flows(m, e, d, cx, il);
    let e2 = lemma_assistant_attend_flows(m, e0, d, cx, il);
    let e3 = lemma_assistant_out_flows(m, e2, d, cx, il);
    let e4 = lemma_assistant_feed_flows(m, e3, d, cx, il);
    let first = gemma_draft::query_ops(l, i, n) + seq![
        gemma_draft::attend_op(l, at, kv, d.sliding_window, cx.rows, cx.wkv),
    ] + gemma_draft::out_ops(i, n);
    let feed = gemma_draft::gate_ops(l, i, n) + gemma_draft::down_ops(i, n);
    assert(gemma_draft::layer_ops(d, cx, i) =~= first + feed);
    e4
}

proof fn lemma_assistant_layers_flow(
    m: Shapes,
    e: Extents,
    d: GemmaDraft,
    cx: DraftContext,
    n: nat,
) -> (e1: Extents)
    requires
        cx.serves(&d),
        assistant_shaped(m, d, cx),
        n <= d.layers@.len(),
        at_draft_layer(e, d.n_embd as int),
    ensures
        flow(m, e, gemma_draft::layers_ops(d, cx, n)) == Some(e1),
        at_draft_layer(e1, d.n_embd as int),
    decreases n,
{
    lemma_flow0(m, e);
    if n == 0 {
        e
    } else {
        lemma_flow(m);
        let e0 = lemma_assistant_layers_flow(m, e, d, cx, (n - 1) as nat);
        assert(assistant_layer_shaped(m, d, cx, n - 1));
        lemma_assistant_layer_flows(m, e0, d, cx, n - 1)
    }
}

/// A step of the assistant drafter from a scaled embedding on reaches all elements of embedding and
/// hidden state, all query heads, and all cache rows that its layers read; it leaves a whole hidden
/// state, and a whole row for the head.
pub proof fn law_assistant_draft_reaches_all(
    m: Shapes,
    e: Extents,
    d: GemmaDraft,
    cx: DraftContext,
)
    requires
        cx.serves(&d),
        assistant_shaped(m, d, cx),
        e[Buf::X] == row(d.n_backbone as nat),
        e[Buf::G] == row(d.n_backbone as nat),
        e[Buf::Pos].rows == 1,
    ensures
        flow(m, e, gemma_draft::from_x_ops(d, cx)) matches Some(e1) && e1[Buf::HSeed] == row(
            d.n_backbone as nat,
        ) && e1[Buf::Hn] == row(d.n_embd as nat) && flow(m, e1, seq![gemma_draft::logits_op()])
            is Some,
{
    lemma_flow(m);
    let nb = d.n_backbone;
    let i = gemma_draft::in_ops(nb);
    lemma_flow4(m, e, i[0], i[1], i[2], i[3]);
    assert(i =~= seq![i[0], i[1], i[2], i[3]]);
    let e0 = flow(m, e, i)->0;
    assert(flow(m, e, i) == Some(e0));
    let e1 = lemma_assistant_layers_flow(m, e0, d, cx, d.layers@.len());
    let t = gemma_draft::tail_ops(d.n_embd);
    lemma_flow2(m, e1, t[0], t[1]);
    assert(t =~= seq![t[0], t[1]]);
    let e2 = flow(m, e1, t)->0;
    assert(flow(m, e1, t) == Some(e2));
    lemma_flow1(m, e2, gemma_draft::logits_op());
}

/// The embedding of the assistant drafter is written and scaled whole, from the host or from the
/// device.
pub proof fn law_assistant_embedding_reaches_all(
    m: Shapes,
    e: Extents,
    d: GemmaDraft,
    token: u32,
    pos: usize,
)
    requires
        m.embed == d.n_backbone,
    ensures
        flow(m, e, gemma_draft::embed_host_ops(d.n_backbone, token, pos)) matches Some(e1)
            && e1[Buf::X] == row(d.n_backbone as nat) && e1[Buf::Pos].rows == 1,
        flow(m, e, gemma_draft::embed_device_ops(d.n_backbone)) matches Some(e1) && e1[Buf::X]
            == row(d.n_backbone as nat) && e1[Buf::Pos] == e[Buf::Pos],
{
    let h = gemma_draft::embed_host_ops(d.n_backbone, token, pos);
    lemma_flow5(m, e, h[0], h[1], h[2], h[3], h[4]);
    assert(h =~= seq![h[0], h[1], h[2], h[3], h[4]]);
    let v = gemma_draft::embed_device_ops(d.n_backbone);
    lemma_flow2(m, e, v[0], v[1]);
    assert(v =~= seq![v[0], v[1]]);
}

} // verus!
