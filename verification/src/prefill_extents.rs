//! Every launch of a pass over a prompt reaches the row of every token.

use vstd::prelude::*;

use crate::batch_extents::{at_rows, lemma_rows_heads};
use crate::config::{Ffn, ModelConfig};
use crate::extent::{
    flow, lemma_flow, lemma_flow0, lemma_flow1, lemma_flow2, lemma_flow4, next, parted, whole,
    Extents, Shapes,
};
use crate::extent_laws::maps;
use crate::launch::{Buf, Op, Slot, Weight};
use crate::prefill;
use crate::prefill::DenseModel;

verus! {

/// The shapes of a layer of the dense model.
pub open spec fn dense_layer_shaped(m: Shapes, d: DenseModel, il: int) -> bool {
    let c = d.cfg;
    let w = |slot: Slot| Weight::Layer(il as usize, slot);
    let (n, hd) = (c.n_embd as int, c.head_dim_k as int);
    &&& (m.vector)(w(Slot::AttnNorm)) == n
    &&& (m.vector)(w(Slot::FfnNorm)) == n
    &&& (m.vector)(w(Slot::QNorm)) == hd
    &&& (m.vector)(w(Slot::KNorm)) == hd
    &&& maps(m, w(Slot::Wq), n, c.q_dim(), hd)
    &&& maps(m, w(Slot::Wk), n, c.kv_dim(), hd)
    &&& maps(m, w(Slot::Wv), n, c.kv_dim(), hd)
    &&& maps(m, w(Slot::Wo), c.q_dim(), n, n)
    &&& d.layers@[il].ffn matches Ffn::Dense { ffn_gate, ffn_up, ffn_down } ==> {
        let n_ff = ffn_gate.out_f as int;
        &&& maps(m, w(Slot::FfnGate), n, n_ff, n_ff)
        &&& maps(m, w(Slot::FfnUp), n, n_ff, n_ff)
        &&& maps(m, w(Slot::FfnDown), n_ff, n, n)
    }
}

/// The shapes of the dense model.
pub open spec fn dense_model_shaped(m: Shapes, d: DenseModel) -> bool {
    let c = d.cfg;
    &&& m.embed == c.n_embd
    &&& (m.rope)(c.head_dim_k as nat) == c.rope_dim_count
    &&& d.layers@.len() <= usize::MAX
    &&& forall|il: int|
        #![trigger d.layers@[il]]
        0 <= il < d.layers@.len() ==> dense_layer_shaped(m, d, il)
    &&& (m.vector)(Weight::Model(Slot::OutputNorm)) == c.n_embd
    &&& maps(
        m,
        Weight::Model(Slot::Output),
        c.n_embd as int,
        c.n_vocab as int,
        c.n_vocab as int,
    )
}

proof fn lemma_attention_flows(
    m: Shapes,
    e: Extents,
    d: DenseModel,
    il: int,
    t: usize,
) -> (e1: Extents)
    requires
        0 <= il < d.layers@.len() <= usize::MAX,
        dense_layer_shaped(m, d, il),
        (m.rope)(d.cfg.head_dim_k as nat) == d.cfg.rope_dim_count,
        prefill::fits(d, t as int),
        at_rows(e, t as int, d.cfg.n_embd as int),
    ensures
        flow(
            m,
            e,
            prefill::proj_ops(d, il, t) + prefill::qk_norm_ops(d, il, t) + prefill::attn_ops(
                d,
                il,
                t,
            ),
        ) == Some(e1),
        e1[Buf::Mixed] == whole(t as nat, d.cfg.n_embd as nat),
        at_rows(e1, t as int, d.cfg.n_embd as int),
{
    lemma_flow(m);
    let c = d.cfg;
    let l = d.layers@[il];
    let (hd, nh, nkv) = (c.head_dim_k, c.n_head, c.n_head_kv);
    let rows = t as nat;
    lemma_rows_heads(rows, nh as nat, hd as nat);
    lemma_rows_heads(rows, nkv as nat, hd as nat);
    assert(nh * t == t * nh && nkv * t == t * nkv) by (nonlinear_arith);
    let proj = prefill::proj_ops(d, il, t);
    lemma_flow4(m, e, proj[0], proj[1], proj[2], proj[3]);
    assert(proj =~= seq![proj[0], proj[1], proj[2], proj[3]]);
    let e2 = flow(m, e, proj)->0;
    assert(flow(m, e, proj) == Some(e2));
    let qn = Op::RmsNorm {
        src: Buf::Q,
        w: prefill::lw(il, Slot::QNorm),
        dst: Buf::Qn,
        dim: hd,
        rows: (nh * t) as usize,
    };
    let kn = Op::RmsNorm {
        src: Buf::K,
        w: prefill::lw(il, Slot::KNorm),
        dst: Buf::Kn,
        dim: hd,
        rows: (nkv * t) as usize,
    };
    lemma_flow0(m, e2);
    lemma_flow1(m, e2, qn);
    let e3 = if l.q_norm {
        next(m, Some(e2), qn)->0
    } else {
        e2
    };
    lemma_flow0(m, e3);
    lemma_flow1(m, e3, kn);
    let e4 = if l.k_norm {
        next(m, Some(e3), kn)->0
    } else {
        e3
    };
    assert(flow(m, e2, prefill::qk_norm_ops(d, il, t)) == Some(e4));
    assert(e4[prefill::q_buf(l)] == parted(rows, c.q_dim() as nat, hd as nat));
    assert(e4[prefill::k_buf(l)] == parted(rows, c.kv_dim() as nat, hd as nat));
    assert(e4[Buf::V] == parted(rows, c.kv_dim() as nat, hd as nat));
    let attn = prefill::attn_ops(d, il, t);
    lemma_flow4(m, e4, attn[0], attn[1], attn[2], attn[3]);
    assert(attn =~= seq![attn[0], attn[1], attn[2], attn[3]]);
    flow(m, e4, attn)->0
}

proof fn lemma_feed_flows(m: Shapes, e: Extents, d: DenseModel, il: int, t: usize) -> (e1: Extents)
    requires
        0 <= il < d.layers@.len() <= usize::MAX,
        dense_layer_shaped(m, d, il),
        m.embed == d.cfg.n_embd,
        prefill::fits(d, t as int),
        at_rows(e, t as int, d.cfg.n_embd as int),
        e[Buf::Mixed] == whole(t as nat, d.cfg.n_embd as nat),
    ensures
        flow(m, e, prefill::feed_ops(d, il, t)) == Some(e1),
        at_rows(e1, t as int, d.cfg.n_embd as int),
{
    lemma_flow(m);
    let c = d.cfg;
    let n = (t * c.n_embd) as usize;
    let add = Op::Add { a: Buf::X, b: Buf::Mixed, dst: Buf::X1, n };
    let norm = Op::RmsNorm {
        src: Buf::X1,
        w: prefill::lw(il, Slot::FfnNorm),
        dst: Buf::Z,
        dim: c.n_embd,
        rows: t,
    };
    lemma_flow2(m, e, add, norm);
    let e0 = next(m, next(m, Some(e), add), norm)->0;
    assert(flow(m, e, seq![add, norm]) == Some(e0));
    let block = prefill::block_ops(d, il, t);
    assert(d.layers@[il].ffn == d.layers@[il].ffn);
    match d.layers@[il].ffn {
        Ffn::Dense { ffn_gate, ffn_up, ffn_down } => {
            lemma_flow4(m, e0, block[0], block[1], block[2], block[3]);
            assert(block =~= seq![block[0], block[1], block[2], block[3]]);
        },
        Ffn::Moe => {
            lemma_flow1(m, e0, block[0]);
            assert(block =~= seq![block[0]]);
        },
    }
    let e2 = flow(m, e0, block)->0;
    assert(flow(m, e0, block) == Some(e2));
    let close = Op::Add { a: Buf::X1, b: Buf::FfnOut, dst: Buf::X, n };
    lemma_flow1(m, e2, close);
    next(m, Some(e2), close)->0
}

proof fn lemma_layers_flow(m: Shapes, e: Extents, d: DenseModel, t: usize, n: nat) -> (e1: Extents)
    requires
        dense_model_shaped(m, d),
        prefill::fits(d, t as int),
        n <= d.layers@.len(),
        at_rows(e, t as int, d.cfg.n_embd as int),
    ensures
        flow(m, e, prefill::layers_ops(d, t, n)) == Some(e1),
        at_rows(e1, t as int, d.cfg.n_embd as int),
    decreases n,
{
    lemma_flow0(m, e);
    if n == 0 {
        e
    } else {
        lemma_flow(m);
        let il = n - 1;
        let e0 = lemma_layers_flow(m, e, d, t, il as nat);
        assert(dense_layer_shaped(m, d, il)) by {
            assert(d.layers@[il] == d.layers@[il]);
        }
        let e2 = lemma_attention_flows(m, e0, d, il, t);
        lemma_feed_flows(m, e2, d, il, t)
    }
}

proof fn lemma_tokens_flow(m: Shapes, e: Extents, tokens: Seq<u32>, dim: usize, k: nat)
    requires
        k <= tokens.len() <= usize::MAX,
        m.embed == dim,
        at_rows(e, tokens.len() as int, dim as int),
    ensures
        flow(m, e, prefill::token_ops(tokens, dim, k)) == Some(e),
    decreases k,
{
    lemma_flow0(m, e);
    if k > 0 {
        lemma_flow(m);
        lemma_tokens_flow(m, e, tokens, dim, (k - 1) as nat);
        let i = (k - 1) as usize;
        lemma_flow2(
            m,
            e,
            Op::SetPos { row: i, pos: i },
            Op::EmbedHost { row: i, token: tokens[k - 1], dim },
        );
    }
}

/// In a pass over a prompt every launch reaches the row of every token, and every head and element
/// of it. The pass leaves one row of logits per token, the last token's among them.
pub proof fn law_pass_reaches_all(m: Shapes, e: Extents, d: DenseModel, tokens: Seq<u32>)
    requires
        dense_model_shaped(m, d),
        tokens.len() <= usize::MAX,
        prefill::fits(d, tokens.len() as int),
    ensures
        flow(m, e, prefill::forward_ops(d, tokens)) matches Some(e1) && e1[Buf::Logits] == whole(
            tokens.len(),
            d.cfg.n_vocab as nat,
        ),
{
    lemma_flow(m);
    let t = tokens.len() as usize;
    let dim = d.cfg.n_embd;
    let a0 = Op::Alloc { dst: Buf::Pos, rows: t, dim: 1 };
    let a1 = Op::Alloc { dst: Buf::X, rows: t, dim };
    lemma_flow2(m, e, a0, a1);
    let e0 = next(m, next(m, Some(e), a0), a1)->0;
    lemma_tokens_flow(m, e0, tokens, dim, tokens.len());
    assert(flow(m, e, prefill::start_ops(tokens, dim)) == Some(e0));
    let e1 = lemma_layers_flow(m, e0, d, t, d.layers@.len());
    lemma_flow2(
        m,
        e1,
        Op::RmsNorm {
            src: Buf::X,
            w: Weight::Model(Slot::OutputNorm),
            dst: Buf::Hn,
            dim,
            rows: t,
        },
        Op::Matmul { w: Weight::Model(Slot::Output), src: Buf::Hn, dst: Buf::Logits, rows: t },
    );
}

} // verus!
